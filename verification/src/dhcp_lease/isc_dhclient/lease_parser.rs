//! The grammar of lease files.
//!
//! A file is a list of blocks `lease { .. }`, a block a list of statements
//! that end in a semicolon. Reading stops at the first block that does not
//! follow the grammar.

use crate::text;
use crate::time;
use vstd::prelude::*;

verus! {

/// A statement of a lease block. Times count the seconds since the start of
/// 1970.
#[derive(Debug, Clone)]
pub enum LeaseStmt {
    Interface(String),
    FixedAddress(String),
    Option(String, String),
    Renew(i64),
    Rebind(i64),
    Expire(i64),
}

#[verifier::ext_equal]
pub enum StmtView {
    Interface(Seq<char>),
    FixedAddress(Seq<char>),
    Option(Seq<char>, Seq<char>),
    Renew(i64),
    Rebind(i64),
    Expire(i64),
}

/// A lease block. Times count the seconds since the start of 1970.
#[derive(Debug, Clone)]
pub struct Lease {
    pub interface: Option<String>,
    pub fixed_address: Option<String>,
    pub options: Vec<(String, String)>,
    pub renew: Option<i64>,
    pub rebind: Option<i64>,
    pub expire: Option<i64>,
}

#[verifier::ext_equal]
pub struct LeaseView {
    pub interface: Option<Seq<char>>,
    pub fixed_address: Option<Seq<char>>,
    pub options: Seq<(Seq<char>, Seq<char>)>,
    pub renew: Option<i64>,
    pub rebind: Option<i64>,
    pub expire: Option<i64>,
}

impl View for LeaseStmt {
    type V = StmtView;

    open spec fn view(&self) -> StmtView {
        match self {
            LeaseStmt::Interface(v) => StmtView::Interface(v@),
            LeaseStmt::FixedAddress(v) => StmtView::FixedAddress(v@),
            LeaseStmt::Option(k, v) => StmtView::Option(k@, v@),
            LeaseStmt::Renew(t) => StmtView::Renew(*t),
            LeaseStmt::Rebind(t) => StmtView::Rebind(*t),
            LeaseStmt::Expire(t) => StmtView::Expire(*t),
        }
    }
}

/// The view of an optional string.
pub open spec fn optional_text(s: Option<String>) -> Option<Seq<char>> {
    match s {
        Some(s) => Some(s@),
        None => None,
    }
}

/// The views of a list of options.
pub open spec fn option_views(options: Seq<(String, String)>) -> Seq<(Seq<char>, Seq<char>)> {
    options.map_values(|o: (String, String)| (o.0@, o.1@))
}

impl View for Lease {
    type V = LeaseView;

    open spec fn view(&self) -> LeaseView {
        LeaseView {
            interface: optional_text(self.interface),
            fixed_address: optional_text(self.fixed_address),
            options: option_views(self.options@),
            renew: self.renew,
            rebind: self.rebind,
            expire: self.expire,
        }
    }
}

/// A lease that says nothing.
pub open spec fn empty_lease() -> LeaseView {
    LeaseView {
        interface: None,
        fixed_address: None,
        options: Seq::empty(),
        renew: None,
        rebind: None,
        expire: None,
    }
}

impl Default for Lease {
    fn default() -> (r: Self)
        ensures
            r@ == empty_lease(),
    {
        let r = Lease {
            interface: None,
            fixed_address: None,
            options: Vec::new(),
            renew: None,
            rebind: None,
            expire: None,
        };
        assert(r@ =~= empty_lease());
        r
    }
}

/// A blank within a line.
pub open spec fn blank(c: char) -> bool {
    c == ' ' || c == '\t'
}

/// A blank or a line end.
pub open spec fn blank_or_line_end(c: char) -> bool {
    blank(c) || c == '\r' || c == '\n'
}

/// Where the run of characters that `member` holds of ends.
pub open spec fn run_end(s: Seq<char>, pos: int, member: spec_fn(char) -> bool) -> int
    decreases s.len() - pos,
{
    if 0 <= pos < s.len() && member(s[pos]) {
        run_end(s, pos + 1, member)
    } else {
        pos
    }
}

/// Past any blanks and line ends.
pub open spec fn past_space(s: Seq<char>, pos: int) -> int {
    run_end(s, pos, |c: char| blank_or_line_end(c))
}

/// Past any blanks.
pub open spec fn blanks_end(s: Seq<char>, pos: int) -> int {
    run_end(s, pos, |c: char| blank(c))
}

/// Past blanks, of which there has to be one.
pub open spec fn past_blanks(s: Seq<char>, pos: int) -> Option<int> {
    let end = blanks_end(s, pos);
    if end > pos {
        Some(end)
    } else {
        None
    }
}

/// Past a fixed word.
pub open spec fn past_word(s: Seq<char>, pos: int, word: Seq<char>) -> Option<int> {
    if 0 <= pos && pos + word.len() <= s.len() && s.subrange(pos, pos + word.len()) == word {
        Some(pos + word.len())
    } else {
        None
    }
}

/// Past one fixed character.
pub open spec fn past_char(s: Seq<char>, pos: int, c: char) -> Option<int> {
    if 0 <= pos < s.len() && s[pos] == c {
        Some(pos + 1)
    } else {
        None
    }
}

/// The characters up to `end`, if there is one at least, and where they end.
pub open spec fn some_run(s: Seq<char>, pos: int, end: int) -> Option<(Seq<char>, int)> {
    if end > pos {
        Some((s.subrange(pos, end), end))
    } else {
        None
    }
}

/// Up to the next occurrence of a character.
pub open spec fn up_to(s: Seq<char>, pos: int, stop: char) -> int {
    run_end(s, pos, |c: char| c != stop)
}

/// Past letters, digits and one other character.
pub open spec fn past_alphanumeric_or(s: Seq<char>, pos: int, other: char) -> int {
    run_end(s, pos, |c: char| text::alphanumeric(c) || c == other)
}

/// Past decimal digits.
pub open spec fn past_digits(s: Seq<char>, pos: int) -> int {
    run_end(s, pos, |c: char| text::digit(c))
}

/// A text in double quotes, at least one character, none of them a quote.
pub open spec fn string_lit(s: Seq<char>, pos: int) -> Option<(Seq<char>, int)> {
    match past_char(s, pos, '"') {
        Some(p) => match some_run(s, p, up_to(s, p, '"')) {
            Some((content, q)) => match past_char(s, q, '"') {
                Some(e) => Some((content, e)),
                None => None,
            },
            None => None,
        },
        None => None,
    }
}

/// A keyword and the blanks after it.
pub open spec fn keyword(s: Seq<char>, pos: int, word: Seq<char>) -> Option<int> {
    match past_word(s, pos, word) {
        Some(p) => past_blanks(s, p),
        None => None,
    }
}

/// The statement `interface "name"`.
pub open spec fn interface_at(s: Seq<char>, pos: int) -> Option<(Seq<char>, int)> {
    match keyword(s, pos, "interface"@) {
        Some(p) => string_lit(s, p),
        None => None,
    }
}

/// The statement `fixed-address 192.0.2.1`.
pub open spec fn fixed_address_at(s: Seq<char>, pos: int) -> Option<(Seq<char>, int)> {
    match keyword(s, pos, "fixed-address"@) {
        Some(p) => some_run(s, p, past_alphanumeric_or(s, p, '.')),
        None => None,
    }
}

/// An option's value: a quoted text, or else everything up to the semicolon
/// without the white space at its end.
pub open spec fn option_value_at(s: Seq<char>, pos: int) -> Option<(Seq<char>, int)> {
    match string_lit(s, pos) {
        Some(found) => Some(found),
        None => match some_run(s, pos, up_to(s, pos, ';')) {
            Some((raw, e)) => Some((text::trimmed_end(raw), e)),
            None => None,
        },
    }
}

/// The statement `option name value`.
pub open spec fn option_at(s: Seq<char>, pos: int) -> Option<((Seq<char>, Seq<char>), int)> {
    match keyword(s, pos, "option"@) {
        Some(p) => match some_run(s, p, past_alphanumeric_or(s, p, '-')) {
            Some((key, q)) => match past_blanks(s, q) {
                Some(r) => match option_value_at(s, r) {
                    Some((value, e)) => Some(((key, value), e)),
                    None => None,
                },
                None => None,
            },
            None => None,
        },
        None => None,
    }
}

/// A decimal number below two to the power of 32.
pub open spec fn number_at(s: Seq<char>, pos: int) -> Option<(u32, int)> {
    match some_run(s, pos, past_digits(s, pos)) {
        Some((digits, e)) => match text::number_in(digits, u32::MAX as int) {
            Some(n) => Some((n as u32, e)),
            None => None,
        },
        None => None,
    }
}

/// A decimal number and one fixed character after it.
pub open spec fn number_then(s: Seq<char>, pos: int, c: char) -> Option<(u32, int)> {
    match number_at(s, pos) {
        Some((n, p)) => match past_char(s, p, c) {
            Some(q) => Some((n, q)),
            None => None,
        },
        None => None,
    }
}

/// A decimal number and the blanks after it.
pub open spec fn number_then_blanks(s: Seq<char>, pos: int) -> Option<(u32, int)> {
    match number_at(s, pos) {
        Some((n, p)) => match past_blanks(s, p) {
            Some(q) => Some((n, q)),
            None => None,
        },
        None => None,
    }
}

/// A year taken as a signed number of 32 bits.
pub open spec fn signed_year(y: u32) -> int {
    if y < 0x8000_0000 {
        y as int
    } else {
        y - 0x1_0000_0000
    }
}

/// The time of a date and a time of day, if the calendar has it.
pub open spec fn time_at(y: u32, m: u32, d: u32, h: u32, mi: u32, s: u32) -> Option<i64> {
    if time::valid_date(signed_year(y), m as int, d as int) && time::valid_time(
        h as int,
        mi as int,
        s as int,
    ) {
        Some(
            time::seconds_at(
                signed_year(y),
                m as int,
                d as int,
                h as int,
                mi as int,
                s as int,
            ) as i64,
        )
    } else {
        None
    }
}

/// A date `YYYY/MM/DD` and the blanks after it.
pub open spec fn date_at(s: Seq<char>, pos: int) -> Option<((u32, u32, u32), int)> {
    match number_then(s, pos, '/') {
        Some((y, p)) => match number_then(s, p, '/') {
            Some((m, q)) => match number_then_blanks(s, q) {
                Some((d, e)) => Some(((y, m, d), e)),
                None => None,
            },
            None => None,
        },
        None => None,
    }
}

/// A time of day `HH:MM:SS`.
pub open spec fn clock_at(s: Seq<char>, pos: int) -> Option<((u32, u32, u32), int)> {
    match number_then(s, pos, ':') {
        Some((h, p)) => match number_then(s, p, ':') {
            Some((mi, q)) => match number_at(s, q) {
                Some((sec, e)) => Some(((h, mi, sec), e)),
                None => None,
            },
            None => None,
        },
        None => None,
    }
}

/// A time `W YYYY/MM/DD HH:MM:SS` in UTC; the weekday is not looked at.
pub open spec fn datetime_at(s: Seq<char>, pos: int) -> Option<(i64, int)> {
    match number_then_blanks(s, pos) {
        Some((_, p)) => match date_at(s, p) {
            Some(((y, m, d), q)) => match clock_at(s, q) {
                Some(((h, mi, sec), e)) => match time_at(y, m, d, h, mi, sec) {
                    Some(t) => Some((t, e)),
                    None => None,
                },
                None => None,
            },
            None => None,
        },
        None => None,
    }
}

/// A keyword and a time.
pub open spec fn timed_at(s: Seq<char>, pos: int, word: Seq<char>) -> Option<(i64, int)> {
    match keyword(s, pos, word) {
        Some(p) => datetime_at(s, p),
        None => None,
    }
}

/// A statement without its semicolon.
pub open spec fn bare_stmt_at(s: Seq<char>, pos: int) -> Option<(StmtView, int)> {
    if let Some((v, e)) = interface_at(s, pos) {
        Some((StmtView::Interface(v), e))
    } else if let Some((v, e)) = fixed_address_at(s, pos) {
        Some((StmtView::FixedAddress(v), e))
    } else if let Some(((k, v), e)) = option_at(s, pos) {
        Some((StmtView::Option(k, v), e))
    } else if let Some((t, e)) = timed_at(s, pos, "renew"@) {
        Some((StmtView::Renew(t), e))
    } else if let Some((t, e)) = timed_at(s, pos, "rebind"@) {
        Some((StmtView::Rebind(t), e))
    } else if let Some((t, e)) = timed_at(s, pos, "expire"@) {
        Some((StmtView::Expire(t), e))
    } else {
        None
    }
}

/// A statement with its semicolon and the space before it.
pub open spec fn stmt_at(s: Seq<char>, pos: int) -> Option<(StmtView, int)> {
    match bare_stmt_at(s, past_space(s, pos)) {
        Some((stmt, p)) => match past_char(s, p, ';') {
            Some(e) => Some((stmt, e)),
            None => None,
        },
        None => None,
    }
}

/// As many statements as follow each other.
pub open spec fn stmts_at(s: Seq<char>, pos: int) -> (Seq<StmtView>, int)
    decreases s.len() - pos,
{
    match stmt_at(s, pos) {
        Some((stmt, p)) if pos < p <= s.len() => {
            let (rest, e) = stmts_at(s, p);
            (seq![stmt] + rest, e)
        },
        _ => (Seq::empty(), pos),
    }
}

/// What a list of statements says of a lease: of each kind the last one
/// counts, and of the options every one.
pub open spec fn lease_of(stmts: Seq<StmtView>) -> LeaseView
    decreases stmts.len(),
{
    if stmts.len() == 0 {
        empty_lease()
    } else {
        let before = lease_of(stmts.drop_last());
        match stmts.last() {
            StmtView::Interface(v) => LeaseView { interface: Some(v), ..before },
            StmtView::FixedAddress(v) => LeaseView { fixed_address: Some(v), ..before },
            StmtView::Option(k, v) => LeaseView { options: before.options.push((k, v)), ..before },
            StmtView::Renew(t) => LeaseView { renew: Some(t), ..before },
            StmtView::Rebind(t) => LeaseView { rebind: Some(t), ..before },
            StmtView::Expire(t) => LeaseView { expire: Some(t), ..before },
        }
    }
}

/// The opening of a lease block.
pub open spec fn lease_start(s: Seq<char>, pos: int) -> Option<int> {
    match past_word(s, past_space(s, pos), "lease"@) {
        Some(p) => past_char(s, past_space(s, p), '{'),
        None => None,
    }
}

/// A lease block.
pub open spec fn lease_at(s: Seq<char>, pos: int) -> Option<(LeaseView, int)> {
    match lease_start(s, pos) {
        Some(p) => {
            let (stmts, q) = stmts_at(s, p);
            match past_char(s, past_space(s, q), '}') {
                Some(e) => Some((lease_of(stmts), e)),
                None => None,
            }
        },
        None => None,
    }
}

/// As many lease blocks as follow each other, and where they end.
pub open spec fn leases_at(s: Seq<char>, pos: int) -> (Seq<LeaseView>, int)
    decreases s.len() - pos,
{
    match lease_at(s, pos) {
        Some((lease, p)) if pos < p <= s.len() => {
            let (rest, e) = leases_at(s, p);
            (seq![lease] + rest, e)
        },
        _ => (Seq::empty(), pos),
    }
}

pub open spec fn lease_views(leases: Seq<Lease>) -> Seq<LeaseView> {
    leases.map_values(|l: Lease| l@)
}

fn skip_space(chars: &Vec<char>, pos: usize) -> (end: usize)
    requires
        pos <= chars@.len(),
    ensures
        end == past_space(chars@, pos as int),
        pos <= end <= chars@.len(),
{
    let mut i: usize = pos;
    while i < chars.len() && (chars[i] == ' ' || chars[i] == '\t' || chars[i] == '\r' || chars[i]
        == '\n')
        invariant
            pos <= i <= chars@.len(),
            past_space(chars@, pos as int) == past_space(chars@, i as int),
        ensures
            pos <= i <= chars@.len(),
            i == past_space(chars@, pos as int),
        decreases chars@.len() - i,
    {
        i += 1;
    }
    i
}

fn skip_blanks(chars: &Vec<char>, pos: usize) -> (r: Option<usize>)
    requires
        pos <= chars@.len(),
    ensures
        match r {
            Some(end) => past_blanks(chars@, pos as int) == Some(end as int) && pos < end
                <= chars@.len(),
            None => past_blanks(chars@, pos as int) is None,
        },
{
    let mut i: usize = pos;
    while i < chars.len() && (chars[i] == ' ' || chars[i] == '\t')
        invariant
            pos <= i <= chars@.len(),
            blanks_end(chars@, pos as int) == blanks_end(chars@, i as int),
        ensures
            pos <= i <= chars@.len(),
            i == blanks_end(chars@, pos as int),
        decreases chars@.len() - i,
    {
        i += 1;
    }
    if i > pos {
        Some(i)
    } else {
        None
    }
}

fn find_char(chars: &Vec<char>, pos: usize, stop: char) -> (end: usize)
    requires
        pos <= chars@.len(),
    ensures
        end == up_to(chars@, pos as int, stop),
        pos <= end <= chars@.len(),
{
    let mut i: usize = pos;
    while i < chars.len() && chars[i] != stop
        invariant
            pos <= i <= chars@.len(),
            up_to(chars@, pos as int, stop) == up_to(chars@, i as int, stop),
        ensures
            pos <= i <= chars@.len(),
            i == up_to(chars@, pos as int, stop),
        decreases chars@.len() - i,
    {
        i += 1;
    }
    i
}

fn skip_alphanumeric_or(chars: &Vec<char>, pos: usize, other: char) -> (end: usize)
    requires
        pos <= chars@.len(),
    ensures
        end == past_alphanumeric_or(chars@, pos as int, other),
        pos <= end <= chars@.len(),
{
    let mut i: usize = pos;
    while i < chars.len() && (chars[i].is_alphanumeric() || chars[i] == other)
        invariant
            pos <= i <= chars@.len(),
            past_alphanumeric_or(chars@, pos as int, other) == past_alphanumeric_or(
                chars@,
                i as int,
                other,
            ),
        ensures
            pos <= i <= chars@.len(),
            i == past_alphanumeric_or(chars@, pos as int, other),
        decreases chars@.len() - i,
    {
        i += 1;
    }
    i
}

fn skip_digits(chars: &Vec<char>, pos: usize) -> (end: usize)
    requires
        pos <= chars@.len(),
    ensures
        end == past_digits(chars@, pos as int),
        pos <= end <= chars@.len(),
{
    let mut i: usize = pos;
    while i < chars.len() && chars[i] >= '0' && chars[i] <= '9'
        invariant
            pos <= i <= chars@.len(),
            past_digits(chars@, pos as int) == past_digits(chars@, i as int),
        ensures
            pos <= i <= chars@.len(),
            i == past_digits(chars@, pos as int),
        decreases chars@.len() - i,
    {
        i += 1;
    }
    i
}

fn skip_char(chars: &Vec<char>, pos: usize, c: char) -> (r: Option<usize>)
    requires
        pos <= chars@.len(),
    ensures
        match r {
            Some(end) => past_char(chars@, pos as int, c) == Some(end as int) && pos < end
                <= chars@.len(),
            None => past_char(chars@, pos as int, c) is None,
        },
{
    if pos < chars.len() && chars[pos] == c {
        Some(pos + 1)
    } else {
        None
    }
}

fn skip_word(chars: &Vec<char>, pos: usize, word: &str) -> (r: Option<usize>)
    requires
        pos <= chars@.len(),
    ensures
        match r {
            Some(end) => past_word(chars@, pos as int, word@) == Some(end as int) && pos <= end
                <= chars@.len(),
            None => past_word(chars@, pos as int, word@) is None,
        },
{
    let letters: Vec<char> = text::chars_of(word);
    let len: usize = chars.len();
    if len - pos < letters.len() {
        return None;
    }
    let mut i: usize = 0;
    while i < letters.len()
        invariant
            i <= letters@.len(),
            letters@ == word@,
            pos + letters@.len() <= chars@.len() == len,
            forall|k: int| 0 <= k < i ==> chars@[pos + k] == letters@[k],
        decreases letters@.len() - i,
    {
        if chars[pos + i] != letters[i] {
            assert(chars@.subrange(pos as int, pos + word@.len())[i as int] != word@[i as int]);
            return None;
        }
        i += 1;
    }
    assert(chars@.subrange(pos as int, pos + word@.len()) =~= word@);
    Some(pos + letters.len())
}

fn parse_string_lit(chars: &Vec<char>, pos: usize) -> (r: Option<(String, usize)>)
    requires
        pos <= chars@.len(),
    ensures
        match r {
            Some((v, e)) => string_lit(chars@, pos as int) == Some((v@, e as int)) && pos < e
                <= chars@.len(),
            None => string_lit(chars@, pos as int) is None,
        },
{
    let start: usize = match skip_char(chars, pos, '"') {
        Some(p) => p,
        None => return None,
    };
    let end: usize = find_char(chars, start, '"');
    if end == start {
        return None;
    }
    match skip_char(chars, end, '"') {
        Some(e) => Some((text::string_of(chars, start, end), e)),
        None => None,
    }
}

fn skip_keyword(chars: &Vec<char>, pos: usize, word: &str) -> (r: Option<usize>)
    requires
        pos <= chars@.len(),
    ensures
        match r {
            Some(e) => keyword(chars@, pos as int, word@) == Some(e as int) && pos < e
                <= chars@.len(),
            None => keyword(chars@, pos as int, word@) is None,
        },
{
    match skip_word(chars, pos, word) {
        Some(p) => skip_blanks(chars, p),
        None => None,
    }
}

fn parse_interface(chars: &Vec<char>, pos: usize) -> (r: Option<(String, usize)>)
    requires
        pos <= chars@.len(),
    ensures
        match r {
            Some((v, e)) => interface_at(chars@, pos as int) == Some((v@, e as int)) && pos < e
                <= chars@.len(),
            None => interface_at(chars@, pos as int) is None,
        },
{
    match skip_keyword(chars, pos, "interface") {
        Some(p) => parse_string_lit(chars, p),
        None => None,
    }
}

fn parse_fixed_address(chars: &Vec<char>, pos: usize) -> (r: Option<(String, usize)>)
    requires
        pos <= chars@.len(),
    ensures
        match r {
            Some((v, e)) => fixed_address_at(chars@, pos as int) == Some((v@, e as int)) && pos < e
                <= chars@.len(),
            None => fixed_address_at(chars@, pos as int) is None,
        },
{
    let start: usize = match skip_keyword(chars, pos, "fixed-address") {
        Some(p) => p,
        None => return None,
    };
    let end: usize = skip_alphanumeric_or(chars, start, '.');
    if end > start {
        Some((text::string_of(chars, start, end), end))
    } else {
        None
    }
}

fn parse_option_value(chars: &Vec<char>, pos: usize) -> (r: Option<(String, usize)>)
    requires
        pos <= chars@.len(),
    ensures
        match r {
            Some((v, e)) => option_value_at(chars@, pos as int) == Some((v@, e as int)) && pos < e
                <= chars@.len(),
            None => option_value_at(chars@, pos as int) is None,
        },
{
    if let Some(found) = parse_string_lit(chars, pos) {
        return Some(found);
    }
    let end: usize = find_char(chars, pos, ';');
    if end > pos {
        let cut: usize = text::end_of_trimmed(chars, pos, end);
        Some((text::string_of(chars, pos, cut), end))
    } else {
        None
    }
}

fn parse_option(chars: &Vec<char>, pos: usize) -> (r: Option<(String, String, usize)>)
    requires
        pos <= chars@.len(),
    ensures
        match r {
            Some((k, v, e)) => option_at(chars@, pos as int) == Some(((k@, v@), e as int)) && pos < e
                <= chars@.len(),
            None => option_at(chars@, pos as int) is None,
        },
{
    let start: usize = match skip_keyword(chars, pos, "option") {
        Some(p) => p,
        None => return None,
    };
    let end: usize = skip_alphanumeric_or(chars, start, '-');
    if end == start {
        return None;
    }
    let key: String = text::string_of(chars, start, end);
    let value_start: usize = match skip_blanks(chars, end) {
        Some(p) => p,
        None => return None,
    };
    match parse_option_value(chars, value_start) {
        Some((value, e)) => Some((key, value, e)),
        None => None,
    }
}

fn parse_u32(chars: &Vec<char>, pos: usize) -> (r: Option<(u32, usize)>)
    requires
        pos <= chars@.len(),
    ensures
        match r {
            Some((n, e)) => number_at(chars@, pos as int) == Some((n, e as int)) && pos < e
                <= chars@.len(),
            None => number_at(chars@, pos as int) is None,
        },
{
    let end: usize = skip_digits(chars, pos);
    if end == pos {
        return None;
    }
    match text::number_between(chars, pos, end, u32::MAX) {
        Some(n) => Some((n, end)),
        None => None,
    }
}

fn parse_u32_then(chars: &Vec<char>, pos: usize, c: char) -> (r: Option<(u32, usize)>)
    requires
        pos <= chars@.len(),
    ensures
        match r {
            Some((n, e)) => number_then(chars@, pos as int, c) == Some((n, e as int)) && pos < e
                <= chars@.len(),
            None => number_then(chars@, pos as int, c) is None,
        },
{
    match parse_u32(chars, pos) {
        Some((n, p)) => match skip_char(chars, p, c) {
            Some(q) => Some((n, q)),
            None => None,
        },
        None => None,
    }
}

fn parse_u32_then_blanks(chars: &Vec<char>, pos: usize) -> (r: Option<(u32, usize)>)
    requires
        pos <= chars@.len(),
    ensures
        match r {
            Some((n, e)) => number_then_blanks(chars@, pos as int) == Some((n, e as int)) && pos
                < e <= chars@.len(),
            None => number_then_blanks(chars@, pos as int) is None,
        },
{
    match parse_u32(chars, pos) {
        Some((n, p)) => match skip_blanks(chars, p) {
            Some(q) => Some((n, q)),
            None => None,
        },
        None => None,
    }
}

fn parse_datetime(chars: &Vec<char>, pos: usize) -> (r: Option<(i64, usize)>)
    requires
        pos <= chars@.len(),
    ensures
        match r {
            Some((t, e)) => datetime_at(chars@, pos as int) == Some((t, e as int)) && pos < e
                <= chars@.len(),
            None => datetime_at(chars@, pos as int) is None,
        },
{
    let (_weekday, p) = match parse_u32_then_blanks(chars, pos) {
        Some(found) => found,
        None => return None,
    };
    let (year, p) = match parse_u32_then(chars, p, '/') {
        Some(found) => found,
        None => return None,
    };
    let (month, p) = match parse_u32_then(chars, p, '/') {
        Some(found) => found,
        None => return None,
    };
    let (day, p) = match parse_u32_then_blanks(chars, p) {
        Some(found) => found,
        None => return None,
    };
    let (hour, p) = match parse_u32_then(chars, p, ':') {
        Some(found) => found,
        None => return None,
    };
    let (minute, p) = match parse_u32_then(chars, p, ':') {
        Some(found) => found,
        None => return None,
    };
    let (second, p) = match parse_u32(chars, p) {
        Some(found) => found,
        None => return None,
    };
    let signed: i32 = year as i32;
    assert(signed == if year < 0x8000_0000 {
        year as int
    } else {
        year - 0x1_0000_0000
    }) by (bit_vector)
        requires
            signed == year as i32,
    ;
    match time::utc_timestamp(signed, month, day, hour, minute, second) {
        Some(t) => Some((t, p)),
        None => None,
    }
}

fn parse_timed(chars: &Vec<char>, pos: usize, word: &str) -> (r: Option<(i64, usize)>)
    requires
        pos <= chars@.len(),
    ensures
        match r {
            Some((t, e)) => timed_at(chars@, pos as int, word@) == Some((t, e as int)) && pos < e
                <= chars@.len(),
            None => timed_at(chars@, pos as int, word@) is None,
        },
{
    match skip_keyword(chars, pos, word) {
        Some(p) => parse_datetime(chars, p),
        None => None,
    }
}

fn parse_bare_stmt(chars: &Vec<char>, pos: usize) -> (r: Option<(LeaseStmt, usize)>)
    requires
        pos <= chars@.len(),
    ensures
        match r {
            Some((stmt, e)) => bare_stmt_at(chars@, pos as int) == Some((stmt@, e as int)) && pos
                < e <= chars@.len(),
            None => bare_stmt_at(chars@, pos as int) is None,
        },
{
    if let Some((v, e)) = parse_interface(chars, pos) {
        return Some((LeaseStmt::Interface(v), e));
    }
    if let Some((v, e)) = parse_fixed_address(chars, pos) {
        return Some((LeaseStmt::FixedAddress(v), e));
    }
    if let Some((k, v, e)) = parse_option(chars, pos) {
        return Some((LeaseStmt::Option(k, v), e));
    }
    if let Some((t, e)) = parse_timed(chars, pos, "renew") {
        return Some((LeaseStmt::Renew(t), e));
    }
    if let Some((t, e)) = parse_timed(chars, pos, "rebind") {
        return Some((LeaseStmt::Rebind(t), e));
    }
    if let Some((t, e)) = parse_timed(chars, pos, "expire") {
        return Some((LeaseStmt::Expire(t), e));
    }
    None
}

fn parse_stmt(chars: &Vec<char>, pos: usize) -> (r: Option<(LeaseStmt, usize)>)
    requires
        pos <= chars@.len(),
    ensures
        match r {
            Some((stmt, e)) => stmt_at(chars@, pos as int) == Some((stmt@, e as int)) && pos < e
                <= chars@.len(),
            None => stmt_at(chars@, pos as int) is None,
        },
{
    let start: usize = skip_space(chars, pos);
    match parse_bare_stmt(chars, start) {
        Some((stmt, p)) => match skip_char(chars, p, ';') {
            Some(e) => Some((stmt, e)),
            None => None,
        },
        None => None,
    }
}

/// Adds what a statement says to a lease.
fn apply_stmt(lease: &mut Lease, stmt: LeaseStmt)
    ensures
        forall|stmts: Seq<StmtView>|
            #![trigger lease_of(stmts)]
            old(lease)@ == lease_of(stmts) ==> final(lease)@ == lease_of(stmts.push(stmt@)),
{
    let ghost before = lease@;
    let ghost said = stmt@;
    match stmt {
        LeaseStmt::Interface(v) => lease.interface = Some(v),
        LeaseStmt::FixedAddress(v) => lease.fixed_address = Some(v),
        LeaseStmt::Option(k, v) => {
            lease.options.push((k, v));
            assert(lease@.options =~= before.options.push((k@, v@)));
        },
        LeaseStmt::Renew(t) => lease.renew = Some(t),
        LeaseStmt::Rebind(t) => lease.rebind = Some(t),
        LeaseStmt::Expire(t) => lease.expire = Some(t),
    }
    proof {
        assert forall|stmts: Seq<StmtView>|
            #![trigger lease_of(stmts)]
            before == lease_of(stmts) implies lease@ == lease_of(stmts.push(said)) by {
            assert(stmts.push(said).drop_last() =~= stmts);
            assert(lease@ =~= lease_of(stmts.push(said)));
        }
    }
}

fn parse_lease(chars: &Vec<char>, pos: usize) -> (r: Option<(Lease, usize)>)
    requires
        pos <= chars@.len(),
    ensures
        match r {
            Some((lease, e)) => lease_at(chars@, pos as int) == Some((lease@, e as int)) && pos < e
                <= chars@.len(),
            None => lease_at(chars@, pos as int) is None,
        },
{
    let word: usize = skip_space(chars, pos);
    let after_word: usize = match skip_word(chars, word, "lease") {
        Some(p) => p,
        None => return None,
    };
    let brace: usize = skip_space(chars, after_word);
    let start: usize = match skip_char(chars, brace, '{') {
        Some(p) => p,
        None => return None,
    };
    let mut lease: Lease = Lease::default();
    let mut at: usize = start;
    let ghost mut done = Seq::<StmtView>::empty();
    assert(done + stmts_at(chars@, start as int).0 =~= stmts_at(chars@, start as int).0);
    loop
        invariant
            start <= at <= chars@.len(),
            lease@ == lease_of(done),
            stmts_at(chars@, start as int).0 == done + stmts_at(chars@, at as int).0,
            stmts_at(chars@, start as int).1 == stmts_at(chars@, at as int).1,
        ensures
            start <= at <= chars@.len(),
            lease@ == lease_of(stmts_at(chars@, start as int).0),
            at == stmts_at(chars@, start as int).1,
        decreases chars@.len() - at,
    {
        match parse_stmt(chars, at) {
            Some((stmt, next)) => {
                let ghost said = stmt@;
                apply_stmt(&mut lease, stmt);
                proof {
                    let rest = stmts_at(chars@, next as int).0;
                    assert(done + (seq![said] + rest) =~= done.push(said) + rest);
                    done = done.push(said);
                }
                at = next;
            },
            None => {
                assert(done + Seq::<StmtView>::empty() =~= done);
                break;
            },
        }
    }
    let close: usize = skip_space(chars, at);
    match skip_char(chars, close, '}') {
        Some(e) => Some((lease, e)),
        None => None,
    }
}

/// Reads the lease blocks of a file, up to the first that does not follow the
/// grammar, and hands back what is left after them and the space behind them.
pub fn parse_leases(input: &str) -> (r: (String, Vec<Lease>))
    ensures
        lease_views(r.1@) == leases_at(input@, 0).0,
        r.0@ == input@.skip(past_space(input@, leases_at(input@, 0).1)),
{
    let chars: Vec<char> = text::chars_of(input);
    let len: usize = chars.len();
    let mut leases: Vec<Lease> = Vec::new();
    let mut at: usize = 0;
    assert(lease_views(leases@) + leases_at(input@, 0).0 =~= leases_at(input@, 0).0);
    loop
        invariant
            chars@ == input@,
            at <= chars@.len(),
            leases_at(input@, 0).0 == lease_views(leases@) + leases_at(input@, at as int).0,
            leases_at(input@, 0).1 == leases_at(input@, at as int).1,
        ensures
            at <= chars@.len(),
            lease_views(leases@) == leases_at(input@, 0).0,
            at == leases_at(input@, 0).1,
        decreases chars@.len() - at,
    {
        match parse_lease(&chars, at) {
            Some((lease, next)) => {
                let ghost before = lease_views(leases@);
                let ghost said = lease@;
                leases.push(lease);
                proof {
                    let rest = leases_at(input@, next as int).0;
                    assert(lease_views(leases@) =~= before.push(said));
                    assert(before + (seq![said] + rest) =~= before.push(said) + rest);
                }
                at = next;
            },
            None => {
                assert(lease_views(leases@) + Seq::<LeaseView>::empty() =~= lease_views(leases@));
                break;
            },
        }
    }
    let end: usize = skip_space(&chars, at);
    assert(chars@.subrange(end as int, len as int) =~= input@.skip(end as int));
    (text::string_of(&chars, end, len), leases)
}

/// Whether a text stands in another one at `pos`.
pub open spec fn stands(s: Seq<char>, pos: int, t: Seq<char>) -> bool {
    &&& 0 <= pos
    &&& pos + t.len() <= s.len()
    &&& forall|i: int| 0 <= i < t.len() ==> s[pos + i] == #[trigger] t[i]
}

/// Whether a text is nothing but spaces and tabs.
pub open spec fn only_blanks(t: Seq<char>) -> bool {
    forall|i: int| 0 <= i < t.len() ==> #[trigger] t[i] == ' ' || t[i] == '\t'
}

/// Whether a text is nothing but spaces, tabs and line ends.
pub open spec fn only_space(t: Seq<char>) -> bool {
    forall|i: int|
        0 <= i < t.len() ==> #[trigger] t[i] == ' ' || t[i] == '\t' || t[i] == '\r' || t[i] == '\n'
}

/// Whether a text is nothing but decimal digits, at least one.
pub open spec fn only_digits(t: Seq<char>) -> bool {
    t.len() > 0 && forall|i: int| 0 <= i < t.len() ==> 48 <= #[trigger] t[i] as int <= 57
}

proof fn lemma_stands_parts(s: Seq<char>, pos: int, a: Seq<char>, b: Seq<char>)
    requires
        stands(s, pos, a + b),
    ensures
        stands(s, pos, a),
        stands(s, pos + a.len(), b),
{
    assert forall|i: int| 0 <= i < a.len() implies s[pos + i] == #[trigger] a[i] by {
        assert((a + b)[i] == a[i]);
    }
    assert forall|i: int| 0 <= i < b.len() implies s[pos + a.len() + i] == #[trigger] b[i] by {
        assert((a + b)[a.len() + i] == b[i]);
    }
}

proof fn lemma_stands_joined(s: Seq<char>, pos: int, a: Seq<char>, b: Seq<char>)
    requires
        stands(s, pos, a),
        stands(s, pos + a.len(), b),
    ensures
        stands(s, pos, a + b),
{
    assert forall|i: int| 0 <= i < (a + b).len() implies s[pos + i] == #[trigger] (a + b)[i] by {
        if i < a.len() {
            assert(s[pos + i] == a[i]);
        } else {
            assert(s[pos + a.len() + (i - a.len())] == b[i - a.len()]);
        }
    }
}

proof fn lemma_part_stands(s: Seq<char>, pos: int, end: int)
    requires
        0 <= pos <= end <= s.len(),
    ensures
        stands(s, pos, s.subrange(pos, end)),
{
}

proof fn lemma_run_is(s: Seq<char>, pos: int, end: int, member: spec_fn(char) -> bool)
    requires
        0 <= pos <= end <= s.len(),
        forall|i: int| pos <= i < end ==> member(#[trigger] s[i]),
        end < s.len() ==> !member(s[end]),
    ensures
        run_end(s, pos, member) == end,
    decreases end - pos,
{
    if pos < end {
        assert(member(s[pos]));
        lemma_run_is(s, pos + 1, end, member);
    }
}

proof fn lemma_run(s: Seq<char>, pos: int, member: spec_fn(char) -> bool)
    requires
        0 <= pos <= s.len(),
    ensures
        ({
            let end = run_end(s, pos, member);
            &&& pos <= end <= s.len()
            &&& forall|i: int| pos <= i < end ==> member(#[trigger] s[i])
            &&& end < s.len() ==> !member(s[end])
        }),
    decreases s.len() - pos,
{
    if pos < s.len() && member(s[pos]) {
        lemma_run(s, pos + 1, member);
    }
}

proof fn lemma_space(s: Seq<char>, pos: int, space: Seq<char>)
    requires
        stands(s, pos, space),
        only_space(space),
        pos + space.len() < s.len(),
        ({
            let c = s[pos + space.len()];
            c != ' ' && c != '\t' && c != '\r' && c != '\n'
        }),
    ensures
        past_space(s, pos) == pos + space.len(),
{
    let member = |c: char| blank_or_line_end(c);
    assert forall|i: int| pos <= i < pos + space.len() implies member(#[trigger] s[i]) by {
        assert(s[pos + (i - pos)] == space[i - pos]);
    }
    lemma_run_is(s, pos, pos + space.len(), member);
}

proof fn lemma_blanks(s: Seq<char>, pos: int, blanks: Seq<char>)
    requires
        stands(s, pos, blanks),
        only_blanks(blanks),
        blanks.len() > 0,
        pos + blanks.len() < s.len(),
        ({
            let c = s[pos + blanks.len()];
            c != ' ' && c != '\t'
        }),
    ensures
        past_blanks(s, pos) == Some(pos + blanks.len()),
{
    let member = |c: char| blank(c);
    assert forall|i: int| pos <= i < pos + blanks.len() implies member(#[trigger] s[i]) by {
        assert(s[pos + (i - pos)] == blanks[i - pos]);
    }
    lemma_run_is(s, pos, pos + blanks.len(), member);
}

proof fn lemma_word(s: Seq<char>, pos: int, word: Seq<char>)
    ensures
        0 <= pos ==> (past_word(s, pos, word) == Some(pos + word.len()) <==> stands(s, pos, word)),
        0 <= pos ==> (past_word(s, pos, word) is Some <==> stands(s, pos, word)),
{
    if 0 <= pos && pos + word.len() <= s.len() {
        let part = s.subrange(pos, pos + word.len());
        if stands(s, pos, word) {
            assert(part =~= word);
        }
        if part == word {
            assert forall|i: int| 0 <= i < word.len() implies s[pos + i] == #[trigger] word[i] by {
                assert(part[i] == word[i]);
            }
        }
    }
}

proof fn lemma_up_to(s: Seq<char>, pos: int, end: int, stop: char)
    requires
        0 <= pos <= end < s.len(),
        forall|i: int| pos <= i < end ==> #[trigger] s[i] != stop,
        s[end] == stop,
    ensures
        up_to(s, pos, stop) == end,
    decreases end - pos,
{
    if pos < end {
        assert(s[pos] != stop);
        lemma_up_to(s, pos + 1, end, stop);
    }
}

proof fn lemma_alphanumeric_or(s: Seq<char>, pos: int, end: int, other: char)
    requires
        0 <= pos <= end < s.len(),
        forall|i: int|
            pos <= i < end ==> text::alphanumeric(#[trigger] s[i]) || s[i] == other,
        !text::alphanumeric(s[end]) && s[end] != other,
    ensures
        past_alphanumeric_or(s, pos, other) == end,
    decreases end - pos,
{
    if pos < end {
        assert(text::alphanumeric(s[pos]) || s[pos] == other);
        lemma_alphanumeric_or(s, pos + 1, end, other);
    }
}

proof fn lemma_quoted(s: Seq<char>, pos: int, text: Seq<char>)
    requires
        text.len() > 0,
        !text.contains('"'),
        stands(s, pos, seq!['"'] + text + seq!['"']),
    ensures
        string_lit(s, pos) == Some((text, pos + text.len() + 2)),
{
    lemma_stands_parts(s, pos, seq!['"'] + text, seq!['"']);
    lemma_stands_parts(s, pos, seq!['"'], text);
    assert(s[pos + 0] == seq!['"'][0]);
    let p = pos + 1;
    let q = p + text.len();
    assert(s[q + 0] == seq!['"'][0]);
    assert forall|i: int| p <= i < q implies #[trigger] s[i] != '"' by {
        assert(s[p + (i - p)] == text[i - p]);
        assert(text.contains(text[i - p]));
    }
    lemma_up_to(s, p, q, '"');
    assert(s.subrange(p, q) =~= text);
}

/// The statement `interface` is read with the name between the quotes,
/// whatever space precedes it and whatever blanks follow the word.
pub proof fn law_interface_statements_are_read(
    s: Seq<char>,
    pos: int,
    space: Seq<char>,
    blanks: Seq<char>,
    name: Seq<char>,
)
    requires
        only_space(space),
        only_blanks(blanks) && blanks.len() > 0,
        name.len() > 0 && !name.contains('"'),
        stands(
            s,
            pos,
            space + "interface"@ + blanks + (seq!['"'] + name + seq!['"']) + seq![';'],
        ),
    ensures
        stmt_at(s, pos) == Some(
            (
                StmtView::Interface(name),
                pos + space.len() + 9 + blanks.len() + name.len() + 3,
            ),
        ),
{
    reveal_strlit("interface");
    let word = "interface"@;
    let quoted = seq!['"'] + name + seq!['"'];
    lemma_stands_parts(s, pos, space + word + blanks + quoted, seq![';']);
    lemma_stands_parts(s, pos, space + word + blanks, quoted);
    lemma_stands_parts(s, pos, space + word, blanks);
    lemma_stands_parts(s, pos, space, word);
    let p = pos + space.len();
    let q = p + 9;
    let r = q + blanks.len();
    let e = r + quoted.len();
    assert(s[p + 0] == word[0]);
    lemma_space(s, pos, space);
    lemma_word(s, p, word);
    assert(s[r + 0] == quoted[0]);
    lemma_blanks(s, q, blanks);
    lemma_quoted(s, r, name);
    assert(s[e + 0] == seq![';'][0]);
}

/// The statement `fixed-address` is read with the letters, digits and dots
/// that follow its blanks.
pub proof fn law_fixed_address_statements_are_read(
    s: Seq<char>,
    pos: int,
    space: Seq<char>,
    blanks: Seq<char>,
    address: Seq<char>,
)
    requires
        only_space(space),
        only_blanks(blanks) && blanks.len() > 0,
        address.len() > 0 && address[0] != ' ' && address[0] != '\t',
        forall|i: int|
            0 <= i < address.len() ==> text::alphanumeric(#[trigger] address[i]) || address[i]
                == '.',
        !text::alphanumeric(';'),
        stands(s, pos, space + "fixed-address"@ + blanks + address + seq![';']),
    ensures
        stmt_at(s, pos) == Some(
            (
                StmtView::FixedAddress(address),
                pos + space.len() + 13 + blanks.len() + address.len() + 1,
            ),
        ),
{
    reveal_strlit("interface");
    reveal_strlit("fixed-address");
    let word = "fixed-address"@;
    lemma_stands_parts(s, pos, space + word + blanks + address, seq![';']);
    lemma_stands_parts(s, pos, space + word + blanks, address);
    lemma_stands_parts(s, pos, space + word, blanks);
    lemma_stands_parts(s, pos, space, word);
    let p = pos + space.len();
    let q = p + 13;
    let r = q + blanks.len();
    let e = r + address.len();
    assert(s[p + 0] == word[0]);
    lemma_space(s, pos, space);
    lemma_word(s, p, word);
    lemma_word(s, p, "interface"@);
    assert(!stands(s, p, "interface"@)) by {
        assert("interface"@[0] == 'i');
    }
    assert(s[r + 0] == address[0]);
    lemma_blanks(s, q, blanks);
    assert(s[e + 0] == seq![';'][0]);
    assert forall|i: int| r <= i < e implies text::alphanumeric(#[trigger] s[i]) || s[i]
        == '.' by {
        assert(s[r + (i - r)] == address[i - r]);
    }
    lemma_alphanumeric_or(s, r, e, '.');
    assert(s.subrange(r, e) =~= address);
}

/// The statement `option` is read with its key of letters, digits and
/// hyphens and its value: what stands between quotes, or else everything up
/// to the semicolon without the white space at its end.
pub proof fn law_option_statements_are_read(
    s: Seq<char>,
    pos: int,
    space: Seq<char>,
    blanks: Seq<char>,
    key: Seq<char>,
    gap: Seq<char>,
    value: Seq<char>,
)
    requires
        only_space(space),
        only_blanks(blanks) && blanks.len() > 0,
        key.len() > 0 && key[0] != ' ' && key[0] != '\t',
        forall|i: int|
            0 <= i < key.len() ==> text::alphanumeric(#[trigger] key[i]) || key[i] == '-',
        only_blanks(gap) && gap.len() > 0,
        !text::alphanumeric(' ') && !text::alphanumeric('\t'),
        value.len() > 0,
    ensures
        !value.contains('"') && stands(
            s,
            pos,
            space + "option"@ + blanks + key + gap + (seq!['"'] + value + seq!['"']) + seq![';'],
        ) ==> stmt_at(s, pos) == Some(
            (
                StmtView::Option(key, value),
                pos + space.len() + 6 + blanks.len() + key.len() + gap.len() + value.len() + 3,
            ),
        ),
        !value.contains(';') && value[0] != '"' && value[0] != ' ' && value[0] != '\t' && stands(
            s,
            pos,
            space + "option"@ + blanks + key + gap + value + seq![';'],
        ) ==> stmt_at(s, pos) == Some(
            (
                StmtView::Option(key, text::trimmed_end(value)),
                pos + space.len() + 6 + blanks.len() + key.len() + gap.len() + value.len() + 1,
            ),
        ),
{
    let start = space + "option"@ + blanks + key + gap;
    let quoted = seq!['"'] + value + seq!['"'];
    if !value.contains('"') && stands(s, pos, start + quoted + seq![';']) {
        lemma_stands_parts(s, pos, start + quoted, seq![';']);
        lemma_stands_parts(s, pos, start, quoted);
        let v = pos + start.len();
        assert(s[v + 0] == quoted[0]);
        lemma_option_key(s, pos, space, blanks, key, gap);
        lemma_quoted(s, v, value);
        let e = v + quoted.len();
        assert(s[e + 0] == seq![';'][0]);
    }
    if !value.contains(';') && value[0] != '"' && value[0] != ' ' && value[0] != '\t' && stands(
        s,
        pos,
        start + value + seq![';'],
    ) {
        lemma_stands_parts(s, pos, start + value, seq![';']);
        lemma_stands_parts(s, pos, start, value);
        let v = pos + start.len();
        assert(s[v + 0] == value[0]);
        lemma_option_key(s, pos, space, blanks, key, gap);
        let e = v + value.len();
        assert(s[e + 0] == seq![';'][0]);
        assert forall|i: int| v <= i < e implies #[trigger] s[i] != ';' by {
            assert(s[v + (i - v)] == value[i - v]);
            assert(value.contains(value[i - v]));
        }
        lemma_up_to(s, v, e, ';');
        assert(s.subrange(v, e) =~= value);
    }
}

proof fn lemma_option_key(
    s: Seq<char>,
    pos: int,
    space: Seq<char>,
    blanks: Seq<char>,
    key: Seq<char>,
    gap: Seq<char>,
)
    requires
        only_space(space),
        only_blanks(blanks) && blanks.len() > 0,
        key.len() > 0 && key[0] != ' ' && key[0] != '\t',
        forall|i: int|
            0 <= i < key.len() ==> text::alphanumeric(#[trigger] key[i]) || key[i] == '-',
        only_blanks(gap) && gap.len() > 0,
        !text::alphanumeric(' ') && !text::alphanumeric('\t'),
        stands(s, pos, space + "option"@ + blanks + key + gap),
        ({
            let v = pos + (space + "option"@ + blanks + key + gap).len();
            v < s.len() && s[v] != ' ' && s[v] != '\t'
        }),
    ensures
        ({
            let p = pos + space.len();
            let v = pos + (space + "option"@ + blanks + key + gap).len();
            &&& v == p + 6 + blanks.len() + key.len() + gap.len()
            &&& past_space(s, pos) == p
            &&& interface_at(s, p) is None
            &&& fixed_address_at(s, p) is None
            &&& option_at(s, p) == match option_value_at(s, v) {
                Some((value, e)) => Some(((key, value), e)),
                None => None,
            }
        }),
{
    reveal_strlit("interface");
    reveal_strlit("fixed-address");
    reveal_strlit("option");
    let word = "option"@;
    lemma_stands_parts(s, pos, space + word + blanks + key, gap);
    lemma_stands_parts(s, pos, space + word + blanks, key);
    lemma_stands_parts(s, pos, space + word, blanks);
    lemma_stands_parts(s, pos, space, word);
    let p = pos + space.len();
    let q = p + 6;
    let r = q + blanks.len();
    let t = r + key.len();
    let v = t + gap.len();
    assert(s[p + 0] == word[0]);
    lemma_space(s, pos, space);
    lemma_word(s, p, word);
    lemma_word(s, p, "interface"@);
    lemma_word(s, p, "fixed-address"@);
    assert(!stands(s, p, "interface"@)) by {
        assert("interface"@[0] == 'i');
    }
    assert(!stands(s, p, "fixed-address"@)) by {
        assert("fixed-address"@[0] == 'f');
    }
    assert(s[r + 0] == key[0]);
    lemma_blanks(s, q, blanks);
    assert(s[t + 0] == gap[0]);
    assert forall|i: int| r <= i < t implies text::alphanumeric(#[trigger] s[i]) || s[i]
        == '-' by {
        assert(s[r + (i - r)] == key[i - r]);
    }
    lemma_alphanumeric_or(s, r, t, '-');
    assert(s.subrange(r, t) =~= key);
    lemma_blanks(s, t, gap);
}

proof fn lemma_number(s: Seq<char>, pos: int, digits: Seq<char>)
    requires
        stands(s, pos, digits),
        only_digits(digits),
        text::decimal_value(digits) <= 4294967295,
        pos + digits.len() < s.len(),
        !(48 <= s[pos + digits.len()] as int <= 57),
    ensures
        text::decimal_value(digits) >= 0,
        number_at(s, pos) == Some((text::decimal_value(digits) as u32, pos + digits.len())),
{
    let end = pos + digits.len();
    let member = |c: char| text::digit(c);
    assert forall|i: int| pos <= i < end implies member(#[trigger] s[i]) by {
        assert(s[pos + (i - pos)] == digits[i - pos]);
    }
    lemma_run_is(s, pos, end, member);
    assert(s.subrange(pos, end) =~= digits);
    text::law_numbers_are_made_of_digits(digits, 4294967295, text::decimal_value(digits));
    assert forall|i: int| 0 <= i < digits.len() implies text::digit(#[trigger] digits[i]) by {}
    text::lemma_decimal_value_grows(digits, 0);
}

proof fn lemma_datetime(
    s: Seq<char>,
    pos: int,
    weekday: Seq<char>,
    blanks: Seq<char>,
    date: (Seq<char>, Seq<char>, Seq<char>),
    gap: Seq<char>,
    clock: (Seq<char>, Seq<char>, Seq<char>),
)
    requires
        only_digits(weekday) && text::decimal_value(weekday) <= 4294967295,
        only_blanks(blanks) && blanks.len() > 0,
        only_digits(date.0) && text::decimal_value(date.0) <= 4294967295,
        only_digits(date.1) && text::decimal_value(date.1) <= 4294967295,
        only_digits(date.2) && text::decimal_value(date.2) <= 4294967295,
        only_blanks(gap) && gap.len() > 0,
        only_digits(clock.0) && text::decimal_value(clock.0) <= 4294967295,
        only_digits(clock.1) && text::decimal_value(clock.1) <= 4294967295,
        only_digits(clock.2) && text::decimal_value(clock.2) <= 4294967295,
        stands(s, pos, written_time(weekday, blanks, date, gap, clock)),
        ({
            let e = pos + written_time(weekday, blanks, date, gap, clock).len();
            e < s.len() && !(48 <= s[e] as int <= 57)
        }),
    ensures
        datetime_at(s, pos) == match time_at(
            text::decimal_value(date.0) as u32,
            text::decimal_value(date.1) as u32,
            text::decimal_value(date.2) as u32,
            text::decimal_value(clock.0) as u32,
            text::decimal_value(clock.1) as u32,
            text::decimal_value(clock.2) as u32,
        ) {
            Some(t) => Some((t, pos + written_time(weekday, blanks, date, gap, clock).len())),
            None => None,
        },
{
    let slash = seq!['/'];
    let colon = seq![':'];
    let (y, m, d) = date;
    let (h, mi, sec) = clock;
    let t1 = weekday + blanks;
    let t2 = t1 + y + slash;
    let t3 = t2 + m + slash;
    let t4 = t3 + d + gap;
    let t5 = t4 + h + colon;
    let t6 = t5 + mi + colon;
    lemma_stands_parts(s, pos, t6, sec);
    lemma_stands_parts(s, pos, t5 + mi, colon);
    lemma_stands_parts(s, pos, t5, mi);
    lemma_stands_parts(s, pos, t4 + h, colon);
    lemma_stands_parts(s, pos, t4, h);
    lemma_stands_parts(s, pos, t3 + d, gap);
    lemma_stands_parts(s, pos, t3, d);
    lemma_stands_parts(s, pos, t2 + m, slash);
    lemma_stands_parts(s, pos, t2, m);
    lemma_stands_parts(s, pos, t1 + y, slash);
    lemma_stands_parts(s, pos, t1, y);
    lemma_stands_parts(s, pos, weekday, blanks);
    let p1 = pos + weekday.len();
    let p2 = p1 + blanks.len();
    let p3 = p2 + y.len();
    let p4 = p3 + 1;
    let p5 = p4 + m.len();
    let p6 = p5 + 1;
    let p7 = p6 + d.len();
    let p8 = p7 + gap.len();
    let p9 = p8 + h.len();
    let p10 = p9 + 1;
    let p11 = p10 + mi.len();
    let p12 = p11 + 1;
    assert(s[p1 + 0] == blanks[0]);
    lemma_number(s, pos, weekday);
    assert(s[p2 + 0] == y[0]);
    lemma_blanks(s, p1, blanks);
    assert(s[p3 + 0] == slash[0]);
    lemma_number(s, p2, y);
    assert(s[p5 + 0] == slash[0]);
    lemma_number(s, p4, m);
    assert(s[p7 + 0] == gap[0]);
    lemma_number(s, p6, d);
    assert(s[p8 + 0] == h[0]);
    lemma_blanks(s, p7, gap);
    assert(s[p9 + 0] == colon[0]);
    lemma_number(s, p8, h);
    assert(s[p11 + 0] == colon[0]);
    lemma_number(s, p10, mi);
    lemma_number(s, p12, sec);
}

/// How a lease file writes a time: the weekday, the date and the time of day.
pub open spec fn written_time(
    weekday: Seq<char>,
    blanks: Seq<char>,
    date: (Seq<char>, Seq<char>, Seq<char>),
    gap: Seq<char>,
    clock: (Seq<char>, Seq<char>, Seq<char>),
) -> Seq<char> {
    weekday + blanks + date.0 + seq!['/'] + date.1 + seq!['/'] + date.2 + gap + clock.0 + seq![':']
        + clock.1 + seq![':'] + clock.2
}

/// The statements `renew`, `rebind` and `expire` are read with the time that
/// their date and time of day tell in UTC, whichever weekday is given. A date
/// or a time of day that does not exist is not read.
pub proof fn law_timed_statements_are_read(
    s: Seq<char>,
    pos: int,
    space: Seq<char>,
    word: Seq<char>,
    lead: Seq<char>,
    weekday: Seq<char>,
    blanks: Seq<char>,
    date: (Seq<char>, Seq<char>, Seq<char>),
    gap: Seq<char>,
    clock: (Seq<char>, Seq<char>, Seq<char>),
)
    requires
        only_space(space),
        word == "renew"@ || word == "rebind"@ || word == "expire"@,
        only_blanks(lead) && lead.len() > 0,
        only_digits(weekday) && text::decimal_value(weekday) <= 4294967295,
        only_blanks(blanks) && blanks.len() > 0,
        only_digits(date.0) && text::decimal_value(date.0) <= 2147483647,
        only_digits(date.1) && text::decimal_value(date.1) <= 4294967295,
        only_digits(date.2) && text::decimal_value(date.2) <= 4294967295,
        only_blanks(gap) && gap.len() > 0,
        only_digits(clock.0) && text::decimal_value(clock.0) <= 4294967295,
        only_digits(clock.1) && text::decimal_value(clock.1) <= 4294967295,
        only_digits(clock.2) && text::decimal_value(clock.2) <= 4294967295,
        stands(
            s,
            pos,
            space + word + lead + written_time(weekday, blanks, date, gap, clock) + seq![';'],
        ),
    ensures
        ({
            let y = text::decimal_value(date.0);
            let m = text::decimal_value(date.1);
            let d = text::decimal_value(date.2);
            let h = text::decimal_value(clock.0);
            let mi = text::decimal_value(clock.1);
            let sec = text::decimal_value(clock.2);
            let exists_at = time::valid_date(y, m, d) && time::valid_time(h, mi, sec);
            let t = time::seconds_at(y, m, d, h, mi, sec) as i64;
            let e = pos + space.len() + word.len() + lead.len() + written_time(
                weekday,
                blanks,
                date,
                gap,
                clock,
            ).len() + 1;
            &&& exists_at && word == "renew"@ ==> stmt_at(s, pos) == Some((StmtView::Renew(t), e))
            &&& exists_at && word == "rebind"@ ==> stmt_at(s, pos) == Some((StmtView::Rebind(t), e))
            &&& exists_at && word == "expire"@ ==> stmt_at(s, pos) == Some((StmtView::Expire(t), e))
            &&& !exists_at ==> stmt_at(s, pos) is None
        }),
{
    reveal_strlit("interface");
    reveal_strlit("fixed-address");
    reveal_strlit("option");
    reveal_strlit("renew");
    reveal_strlit("rebind");
    reveal_strlit("expire");
    let time = written_time(weekday, blanks, date, gap, clock);
    lemma_stands_parts(s, pos, space + word + lead + time, seq![';']);
    lemma_stands_parts(s, pos, space + word + lead, time);
    lemma_stands_parts(s, pos, space + word, lead);
    lemma_stands_parts(s, pos, space, word);
    let p = pos + space.len();
    let q = p + word.len();
    let r = q + lead.len();
    let e = r + time.len();
    assert(s[p + 0] == word[0] && s[p + 2] == word[2]);
    lemma_space(s, pos, space);
    lemma_word(s, p, word);
    lemma_word(s, p, "interface"@);
    lemma_word(s, p, "fixed-address"@);
    lemma_word(s, p, "option"@);
    lemma_word(s, p, "renew"@);
    lemma_word(s, p, "rebind"@);
    lemma_word(s, p, "expire"@);
    assert(!stands(s, p, "interface"@)) by {
        assert("interface"@[0] == 'i');
    }
    assert(!stands(s, p, "fixed-address"@)) by {
        assert("fixed-address"@[0] == 'f');
    }
    assert(!stands(s, p, "option"@)) by {
        assert("option"@[0] == 'o');
    }
    assert(stands(s, p, "renew"@) ==> word == "renew"@) by {
        assert("renew"@[0] == 'r' && "renew"@[2] == 'n');
        assert("rebind"@[2] == 'b' && "expire"@[0] == 'e');
    }
    assert(stands(s, p, "rebind"@) ==> word == "rebind"@) by {
        assert("rebind"@[0] == 'r' && "rebind"@[2] == 'b');
        assert("renew"@[2] == 'n' && "expire"@[0] == 'e');
    }
    assert(stands(s, p, "expire"@) ==> word == "expire"@) by {
        assert("expire"@[0] == 'e' && "renew"@[0] == 'r' && "rebind"@[0] == 'r');
    }
    assert(time[0] == weekday[0]);
    assert(s[r + 0] == time[0]);
    lemma_blanks(s, q, lead);
    assert(s[e + 0] == seq![';'][0]);
    lemma_datetime(s, r, weekday, blanks, date, gap, clock);
    lemma_number_is_not_negative(date.0);
    lemma_number_is_not_negative(date.1);
    lemma_number_is_not_negative(date.2);
    lemma_number_is_not_negative(clock.0);
    lemma_number_is_not_negative(clock.1);
    lemma_number_is_not_negative(clock.2);
}

proof fn lemma_number_is_not_negative(digits: Seq<char>)
    requires
        only_digits(digits),
    ensures
        text::decimal_value(digits) >= 0,
{
    assert forall|i: int| 0 <= i < digits.len() implies text::digit(#[trigger] digits[i]) by {}
    text::lemma_decimal_value_grows(digits, 0);
}

/// Of the statements of a lease the last of a kind counts, except that every
/// option does, in order. Without statements a lease says nothing.
pub proof fn law_later_statements_count(
    stmts: Seq<StmtView>,
    key: Seq<char>,
    value: Seq<char>,
    t: i64,
)
    ensures
        ({
            let l = lease_of(stmts);
            let i = lease_of(stmts.push(StmtView::Interface(value)));
            let f = lease_of(stmts.push(StmtView::FixedAddress(value)));
            let o = lease_of(stmts.push(StmtView::Option(key, value)));
            let n = lease_of(stmts.push(StmtView::Renew(t)));
            let b = lease_of(stmts.push(StmtView::Rebind(t)));
            let x = lease_of(stmts.push(StmtView::Expire(t)));
            &&& i == (LeaseView { interface: Some(value), ..l })
            &&& f == (LeaseView { fixed_address: Some(value), ..l })
            &&& o == (LeaseView { options: l.options.push((key, value)), ..l })
            &&& n == (LeaseView { renew: Some(t), ..l })
            &&& b == (LeaseView { rebind: Some(t), ..l })
            &&& x == (LeaseView { expire: Some(t), ..l })
            &&& stmts.len() == 0 ==> l.interface is None && l.fixed_address is None
                && l.options.len() == 0 && l.renew is None && l.rebind is None && l.expire is None
        }),
{
    assert(stmts.push(StmtView::Interface(value)).drop_last() =~= stmts);
    assert(stmts.push(StmtView::FixedAddress(value)).drop_last() =~= stmts);
    assert(stmts.push(StmtView::Option(key, value)).drop_last() =~= stmts);
    assert(stmts.push(StmtView::Renew(t)).drop_last() =~= stmts);
    assert(stmts.push(StmtView::Rebind(t)).drop_last() =~= stmts);
    assert(stmts.push(StmtView::Expire(t)).drop_last() =~= stmts);
}

/// A lease block is read from the word `lease` and its opening brace to its
/// closing brace, with whatever space around these: it says what the
/// statements between the braces say.
pub proof fn law_lease_blocks_are_read(
    s: Seq<char>,
    pos: int,
    space: Seq<char>,
    gap: Seq<char>,
    tail: Seq<char>,
)
    requires
        only_space(space),
        only_space(gap),
        only_space(tail),
        stands(s, pos, space + "lease"@ + gap + seq!['{']),
        ({
            let start = pos + space.len() + 5 + gap.len() + 1;
            stands(s, stmts_at(s, start).1, tail + seq!['}'])
        }),
    ensures
        ({
            let (stmts, end) = stmts_at(s, pos + space.len() + 5 + gap.len() + 1);
            lease_at(s, pos) == Some((lease_of(stmts), end + tail.len() + 1))
        }),
{
    reveal_strlit("lease");
    let word = "lease"@;
    lemma_stands_parts(s, pos, space + word + gap, seq!['{']);
    lemma_stands_parts(s, pos, space + word, gap);
    lemma_stands_parts(s, pos, space, word);
    let p = pos + space.len();
    let q = p + 5;
    let r = q + gap.len();
    assert(s[p + 0] == word[0]);
    lemma_space(s, pos, space);
    lemma_word(s, p, word);
    assert(s[r + 0] == seq!['{'][0]);
    lemma_space(s, q, gap);
    let end = stmts_at(s, r + 1).1;
    lemma_stands_parts(s, end, tail, seq!['}']);
    assert(s[end + tail.len() + 0] == seq!['}'][0]);
    lemma_space(s, end, tail);
}

/// Statements are read one behind the other until one does not follow the
/// grammar, and so are lease blocks.
pub proof fn law_statements_and_blocks_follow_each_other(s: Seq<char>, pos: int)
    requires
        0 <= pos <= s.len(),
    ensures
        match stmt_at(s, pos) {
            Some((stmt, p)) => pos < p <= s.len() && stmts_at(s, pos).0 == seq![stmt] + stmts_at(
                s,
                p,
            ).0 && stmts_at(s, pos).1 == stmts_at(s, p).1,
            None => stmts_at(s, pos).0.len() == 0 && stmts_at(s, pos).1 == pos,
        },
        match lease_at(s, pos) {
            Some((lease, p)) => pos < p <= s.len() && leases_at(s, pos).0 == seq![lease]
                + leases_at(s, p).0 && leases_at(s, pos).1 == leases_at(s, p).1,
            None => leases_at(s, pos).0.len() == 0 && leases_at(s, pos).1 == pos,
        },
{
    if stmt_at(s, pos) is Some {
        lemma_stmt_moves_on(s, pos);
    }
    if lease_at(s, pos) is Some {
        lemma_lease_moves_on(s, pos);
    }
}

proof fn lemma_blank_runs(s: Seq<char>, pos: int)
    requires
        0 <= pos <= s.len(),
    ensures
        pos <= past_space(s, pos) <= s.len(),
        pos <= blanks_end(s, pos) <= s.len(),
        past_blanks(s, pos) is Some ==> pos < past_blanks(s, pos).unwrap() <= s.len(),
        forall|i: int|
            pos <= i < past_space(s, pos) ==> #[trigger] s[i] == ' ' || s[i] == '\t' || s[i] == '\r'
                || s[i] == '\n',
        forall|i: int| pos <= i < blanks_end(s, pos) ==> #[trigger] s[i] == ' ' || s[i] == '\t',
{
    let space = |c: char| blank_or_line_end(c);
    let blanks = |c: char| blank(c);
    lemma_run(s, pos, space);
    lemma_run(s, pos, blanks);
    assert forall|i: int| pos <= i < past_space(s, pos) implies #[trigger] s[i] == ' ' || s[i]
        == '\t' || s[i] == '\r' || s[i] == '\n' by {
        assert(space(s[i]));
    }
    assert forall|i: int| pos <= i < blanks_end(s, pos) implies #[trigger] s[i] == ' ' || s[i]
        == '\t' by {
        assert(blanks(s[i]));
    }
}

proof fn lemma_up_to_bounds(s: Seq<char>, pos: int, stop: char)
    requires
        0 <= pos <= s.len(),
    ensures
        pos <= up_to(s, pos, stop) <= s.len(),
        forall|i: int| pos <= i < up_to(s, pos, stop) ==> #[trigger] s[i] != stop,
    decreases s.len() - pos,
{
    if pos < s.len() && s[pos] != stop {
        lemma_up_to_bounds(s, pos + 1, stop);
    }
}

proof fn lemma_alphanumeric_bounds(s: Seq<char>, pos: int, other: char)
    requires
        0 <= pos <= s.len(),
    ensures
        pos <= past_alphanumeric_or(s, pos, other) <= s.len(),
        forall|i: int|
            pos <= i < past_alphanumeric_or(s, pos, other) ==> text::alphanumeric(#[trigger] s[i])
                || s[i] == other,
    decreases s.len() - pos,
{
    if pos < s.len() && (text::alphanumeric(s[pos]) || s[pos] == other) {
        lemma_alphanumeric_bounds(s, pos + 1, other);
    }
}

proof fn lemma_number_found(s: Seq<char>, pos: int)
    requires
        0 <= pos <= s.len(),
        number_at(s, pos) is Some,
    ensures
        ({
            let (n, e) = number_at(s, pos).unwrap();
            &&& pos < e <= s.len()
            &&& only_digits(s.subrange(pos, e))
            &&& n == text::decimal_value(s.subrange(pos, e))
        }),
{
    let member = |c: char| text::digit(c);
    lemma_run(s, pos, member);
    let e = past_digits(s, pos);
    let part = s.subrange(pos, e);
    assert forall|i: int| 0 <= i < part.len() implies 48 <= #[trigger] part[i] as int <= 57 by {
        assert(member(s[pos + i]));
    }
    lemma_number_is_not_negative(part);
}

/// What is read as a time is written as one: a weekday, blanks, a date with
/// slashes, blanks and a time of day with colons, all in decimal. The time is
/// that of a date and a time of day that exist.
pub proof fn law_times_are_read_from_their_digits(s: Seq<char>, pos: int)
    requires
        0 <= pos <= s.len(),
        datetime_at(s, pos) is Some,
    ensures
        ({
            let (t, e) = datetime_at(s, pos).unwrap();
            exists|
                weekday: Seq<char>,
                blanks: Seq<char>,
                date: (Seq<char>, Seq<char>, Seq<char>),
                gap: Seq<char>,
                clock: (Seq<char>, Seq<char>, Seq<char>),
            |
                {
                    &&& stands(s, pos, #[trigger] written_time(weekday, blanks, date, gap, clock))
                    &&& e == pos + written_time(weekday, blanks, date, gap, clock).len()
                    &&& only_digits(weekday)
                    &&& only_blanks(blanks) && blanks.len() > 0
                    &&& only_digits(date.0) && only_digits(date.1) && only_digits(date.2)
                    &&& only_blanks(gap) && gap.len() > 0
                    &&& only_digits(clock.0) && only_digits(clock.1) && only_digits(clock.2)
                    &&& time_at(
                        text::decimal_value(date.0) as u32,
                        text::decimal_value(date.1) as u32,
                        text::decimal_value(date.2) as u32,
                        text::decimal_value(clock.0) as u32,
                        text::decimal_value(clock.1) as u32,
                        text::decimal_value(clock.2) as u32,
                    ) == Some(t)
                }
        }),
{
    let (_, p1) = number_at(s, pos).unwrap();
    lemma_number_found(s, pos);
    lemma_blank_runs(s, p1);
    let p2 = past_blanks(s, p1).unwrap();
    let (y, p3) = number_at(s, p2).unwrap();
    lemma_number_found(s, p2);
    let p4 = p3 + 1;
    let (m, p5) = number_at(s, p4).unwrap();
    lemma_number_found(s, p4);
    let p6 = p5 + 1;
    let (d, p7) = number_at(s, p6).unwrap();
    lemma_number_found(s, p6);
    lemma_blank_runs(s, p7);
    let p8 = past_blanks(s, p7).unwrap();
    let (h, p9) = number_at(s, p8).unwrap();
    lemma_number_found(s, p8);
    let p10 = p9 + 1;
    let (mi, p11) = number_at(s, p10).unwrap();
    lemma_number_found(s, p10);
    let p12 = p11 + 1;
    let (sec, p13) = number_at(s, p12).unwrap();
    lemma_number_found(s, p12);
    let weekday = s.subrange(pos, p1);
    let blanks = s.subrange(p1, p2);
    let date = (s.subrange(p2, p3), s.subrange(p4, p5), s.subrange(p6, p7));
    let gap = s.subrange(p7, p8);
    let clock = (s.subrange(p8, p9), s.subrange(p10, p11), s.subrange(p12, p13));
    let whole = written_time(weekday, blanks, date, gap, clock);
    assert(whole =~= s.subrange(pos, p13));
    lemma_part_stands(s, pos, p13);
}

proof fn lemma_bare_stmt_moves_on(s: Seq<char>, pos: int)
    requires
        0 <= pos <= s.len(),
        bare_stmt_at(s, pos) is Some,
    ensures
        pos <= bare_stmt_at(s, pos).unwrap().1 <= s.len(),
{
    if keyword(s, pos, "interface"@) is Some {
        let p = past_word(s, pos, "interface"@).unwrap();
        lemma_blank_runs(s, p);
        let q = keyword(s, pos, "interface"@).unwrap();
        lemma_quoted_bounds(s, q);
    }
    if keyword(s, pos, "fixed-address"@) is Some {
        let p = past_word(s, pos, "fixed-address"@).unwrap();
        lemma_blank_runs(s, p);
        lemma_alphanumeric_bounds(s, keyword(s, pos, "fixed-address"@).unwrap(), '.');
    }
    if keyword(s, pos, "option"@) is Some {
        let p = past_word(s, pos, "option"@).unwrap();
        lemma_blank_runs(s, p);
        let q = keyword(s, pos, "option"@).unwrap();
        lemma_alphanumeric_bounds(s, q, '-');
        let r = past_alphanumeric_or(s, q, '-');
        lemma_blank_runs(s, r);
        if past_blanks(s, r) is Some {
            let v = past_blanks(s, r).unwrap();
            lemma_quoted_bounds(s, v);
            lemma_up_to_bounds(s, v, ';');
        }
    }
    lemma_timed_moves_on(s, pos, "renew"@);
    lemma_timed_moves_on(s, pos, "rebind"@);
    lemma_timed_moves_on(s, pos, "expire"@);
}

proof fn lemma_timed_moves_on(s: Seq<char>, pos: int, word: Seq<char>)
    requires
        0 <= pos <= s.len(),
    ensures
        timed_at(s, pos, word) is Some ==> pos <= timed_at(s, pos, word).unwrap().1 <= s.len(),
{
    if timed_at(s, pos, word) is Some {
        let p = past_word(s, pos, word).unwrap();
        lemma_blank_runs(s, p);
        law_times_are_read_from_their_digits(s, keyword(s, pos, word).unwrap());
    }
}

proof fn lemma_quoted_bounds(s: Seq<char>, pos: int)
    requires
        0 <= pos <= s.len(),
    ensures
        string_lit(s, pos) is Some ==> ({
            let (text, e) = string_lit(s, pos).unwrap();
            &&& pos <= e <= s.len()
            &&& text.len() > 0
            &&& !text.contains('"')
            &&& e == pos + text.len() + 2
            &&& stands(s, pos, seq!['"'] + text + seq!['"'])
        }),
{
    if string_lit(s, pos) is Some {
        let p = pos + 1;
        lemma_up_to_bounds(s, p, '"');
        let q = up_to(s, p, '"');
        let text = s.subrange(p, q);
        assert forall|i: int| 0 <= i < text.len() implies #[trigger] text[i] != '"' by {
            assert(s[p + i] != '"');
        }
        assert(seq!['"'] + text + seq!['"'] =~= s.subrange(pos, q + 1));
        lemma_part_stands(s, pos, q + 1);
    }
}

proof fn lemma_stmt_moves_on(s: Seq<char>, pos: int)
    requires
        0 <= pos <= s.len(),
        stmt_at(s, pos) is Some,
    ensures
        pos < stmt_at(s, pos).unwrap().1 <= s.len(),
{
    lemma_blank_runs(s, pos);
    lemma_bare_stmt_moves_on(s, past_space(s, pos));
}

proof fn lemma_stmts_move_on(s: Seq<char>, pos: int)
    requires
        0 <= pos <= s.len(),
    ensures
        pos <= stmts_at(s, pos).1 <= s.len(),
    decreases s.len() - pos,
{
    if stmt_at(s, pos) is Some {
        lemma_stmt_moves_on(s, pos);
        lemma_stmts_move_on(s, stmt_at(s, pos).unwrap().1);
    }
}

proof fn lemma_lease_moves_on(s: Seq<char>, pos: int)
    requires
        0 <= pos <= s.len(),
        lease_at(s, pos) is Some,
    ensures
        pos < lease_at(s, pos).unwrap().1 <= s.len(),
{
    lemma_blank_runs(s, pos);
    let p = past_word(s, past_space(s, pos), "lease"@).unwrap();
    lemma_blank_runs(s, p);
    let q = lease_start(s, pos).unwrap();
    lemma_stmts_move_on(s, q);
    lemma_blank_runs(s, stmts_at(s, q).1);
}

proof fn lemma_stmt_start(s: Seq<char>, pos: int, word: Seq<char>)
    requires
        0 <= pos <= s.len(),
        keyword(s, past_space(s, pos), word) is Some,
    ensures
        ({
            let p = past_space(s, pos);
            let q = p + word.len();
            let r = keyword(s, p, word).unwrap();
            let space = s.subrange(pos, p);
            let blanks = s.subrange(q, r);
            &&& pos <= p && q < r <= s.len()
            &&& only_space(space)
            &&& only_blanks(blanks) && blanks.len() > 0
            &&& space + word + blanks == s.subrange(pos, r)
        }),
{
    let p = past_space(s, pos);
    lemma_blank_runs(s, pos);
    lemma_word(s, p, word);
    let q = p + word.len();
    lemma_blank_runs(s, q);
    let r = keyword(s, p, word).unwrap();
    let space = s.subrange(pos, p);
    let blanks = s.subrange(q, r);
    assert(s.subrange(p, q) =~= word) by {
        assert forall|i: int| 0 <= i < word.len() implies s[p + i] == #[trigger] word[i] by {}
    }
    assert forall|i: int| 0 <= i < space.len() implies #[trigger] space[i] == ' ' || space[i]
        == '\t' || space[i] == '\r' || space[i] == '\n' by {
        assert(s[pos + i] == space[i]);
    }
    assert forall|i: int| 0 <= i < blanks.len() implies #[trigger] blanks[i] == ' ' || blanks[i]
        == '\t' by {
        assert(s[q + i] == blanks[i]);
    }
    assert(space + word + blanks =~= s.subrange(pos, r)) by {
        assert(word =~= s.subrange(p, q));
    }
}

/// What is read as a statement on the interface or the address is written as
/// one: space, the word, blanks, the name in quotes or the address bare, and
/// a semicolon.
pub proof fn law_named_statements_are_read_from_their_words(s: Seq<char>, pos: int)
    requires
        0 <= pos <= s.len(),
        stmt_at(s, pos) is Some,
    ensures
        ({
            let (stmt, e) = stmt_at(s, pos).unwrap();
            match stmt {
                StmtView::Interface(name) => exists|space: Seq<char>, blanks: Seq<char>|
                    {
                        &&& only_space(space)
                        &&& only_blanks(blanks) && blanks.len() > 0
                        &&& name.len() > 0 && !name.contains('"')
                        &&& stands(
                            s,
                            pos,
                            #[trigger] (space + "interface"@ + blanks) + (seq!['"'] + name + seq![
                                '"',
                            ]) + seq![';'],
                        )
                        &&& e == pos + space.len() + 9 + blanks.len() + name.len() + 3
                    },
                StmtView::FixedAddress(address) => exists|space: Seq<char>, blanks: Seq<char>|
                    {
                        &&& only_space(space)
                        &&& only_blanks(blanks) && blanks.len() > 0
                        &&& address.len() > 0
                        &&& forall|i: int|
                            0 <= i < address.len() ==> text::alphanumeric(#[trigger] address[i])
                                || address[i] == '.'
                        &&& stands(
                            s,
                            pos,
                            #[trigger] (space + "fixed-address"@ + blanks) + address + seq![';'],
                        )
                        &&& e == pos + space.len() + 13 + blanks.len() + address.len() + 1
                    },
                _ => true,
            }
        }),
{
    reveal_strlit("interface");
    reveal_strlit("fixed-address");
    let (stmt, e) = stmt_at(s, pos).unwrap();
    let p = past_space(s, pos);
    lemma_blank_runs(s, pos);
    match stmt {
        StmtView::Interface(name) => {
            lemma_stmt_start(s, pos, "interface"@);
            let r = keyword(s, p, "interface"@).unwrap();
            lemma_quoted_bounds(s, r);
            let space = s.subrange(pos, p);
            let blanks = s.subrange(p + 9, r);
            let quoted = seq!['"'] + name + seq!['"'];
            lemma_part_stands(s, pos, r);
            lemma_stands_joined(s, pos, space + "interface"@ + blanks, quoted);
            assert(seq![';'] =~= s.subrange(e - 1, e));
            lemma_part_stands(s, e - 1, e);
            lemma_stands_joined(s, pos, space + "interface"@ + blanks + quoted, seq![';']);
        },
        StmtView::FixedAddress(address) => {
            lemma_stmt_start(s, pos, "fixed-address"@);
            let r = keyword(s, p, "fixed-address"@).unwrap();
            lemma_alphanumeric_bounds(s, r, '.');
            let space = s.subrange(pos, p);
            let blanks = s.subrange(p + 13, r);
            assert forall|i: int| 0 <= i < address.len() implies text::alphanumeric(
                #[trigger] address[i],
            ) || address[i] == '.' by {
                assert(s[r + i] == address[i]);
            }
            lemma_part_stands(s, pos, r);
            lemma_part_stands(s, r, e - 1);
            lemma_stands_joined(s, pos, space + "fixed-address"@ + blanks, address);
            assert(seq![';'] =~= s.subrange(e - 1, e));
            lemma_part_stands(s, e - 1, e);
            lemma_stands_joined(s, pos, space + "fixed-address"@ + blanks + address, seq![';']);
        },
        _ => {},
    }
}

/// What is read as an option is written as one: space, the word, blanks, the
/// key, blanks, the value, and a semicolon. The value is what stands between
/// quotes, or what is left of everything up to the semicolon without the
/// white space at its end.
pub proof fn law_options_are_read_from_their_words(s: Seq<char>, pos: int)
    requires
        0 <= pos <= s.len(),
        stmt_at(s, pos) is Some,
        stmt_at(s, pos).unwrap().0 is Option,
    ensures
        ({
            let (stmt, e) = stmt_at(s, pos).unwrap();
            let key = stmt->Option_0;
            let value = stmt->Option_1;
            exists|space: Seq<char>, blanks: Seq<char>, gap: Seq<char>, raw: Seq<char>|
                {
                    &&& only_space(space)
                    &&& only_blanks(blanks) && blanks.len() > 0
                    &&& key.len() > 0
                    &&& forall|i: int|
                        0 <= i < key.len() ==> text::alphanumeric(#[trigger] key[i]) || key[i]
                            == '-'
                    &&& only_blanks(gap) && gap.len() > 0
                    &&& stands(
                        s,
                        pos,
                        #[trigger] (space + "option"@ + blanks + key + gap + raw) + seq![';'],
                    )
                    &&& e == pos + space.len() + 6 + blanks.len() + key.len() + gap.len()
                        + raw.len() + 1
                    &&& {
                        ||| raw == seq!['"'] + value + seq!['"'] && value.len() > 0
                            && !value.contains('"')
                        ||| value == text::trimmed_end(raw) && raw.len() > 0 && !raw.contains(';')
                    }
                }
        }),
{
    reveal_strlit("option");
    let (stmt, e) = stmt_at(s, pos).unwrap();
    let key = stmt->Option_0;
    let value = stmt->Option_1;
    let p = past_space(s, pos);
    lemma_blank_runs(s, pos);
    lemma_stmt_start(s, pos, "option"@);
    let r = keyword(s, p, "option"@).unwrap();
    lemma_alphanumeric_bounds(s, r, '-');
    let t = past_alphanumeric_or(s, r, '-');
    lemma_blank_runs(s, t);
    let v = past_blanks(s, t).unwrap();
    lemma_quoted_bounds(s, v);
    lemma_up_to_bounds(s, v, ';');
    let space = s.subrange(pos, p);
    let blanks = s.subrange(p + 6, r);
    let gap = s.subrange(t, v);
    let raw = s.subrange(v, e - 1);
    assert forall|i: int| 0 <= i < key.len() implies text::alphanumeric(#[trigger] key[i])
        || key[i] == '-' by {
        assert(s[r + i] == key[i]);
    }
    assert forall|i: int| 0 <= i < gap.len() implies #[trigger] gap[i] == ' ' || gap[i] == '\t' by {
        assert(s[t + i] == gap[i]);
    }
    if string_lit(s, v) is Some {
        let quoted = seq!['"'] + value + seq!['"'];
        assert(raw =~= quoted) by {
            assert forall|i: int| 0 <= i < quoted.len() implies s[v + i] == #[trigger] quoted[i] by {}
        }
    } else {
        assert forall|i: int| 0 <= i < raw.len() implies #[trigger] raw[i] != ';' by {
            assert(s[v + i] != ';');
        }
    }
    let whole = space + "option"@ + blanks + key + gap + raw;
    assert(whole =~= s.subrange(pos, r) + key + gap + raw);
    assert(whole =~= s.subrange(pos, e - 1));
    lemma_part_stands(s, pos, e - 1);
    assert(seq![';'] =~= s.subrange(e - 1, e));
    lemma_part_stands(s, e - 1, e);
    lemma_stands_joined(s, pos, whole, seq![';']);
}

/// What is read as a time of renewal, rebinding or expiry is written as one:
/// space, the word, blanks, a time, and a semicolon.
pub proof fn law_timed_statements_are_read_from_their_words(s: Seq<char>, pos: int)
    requires
        0 <= pos <= s.len(),
        stmt_at(s, pos) is Some,
    ensures
        ({
            let (stmt, e) = stmt_at(s, pos).unwrap();
            match stmt {
                StmtView::Renew(t) => reads_time(s, pos, "renew"@, t, e),
                StmtView::Rebind(t) => reads_time(s, pos, "rebind"@, t, e),
                StmtView::Expire(t) => reads_time(s, pos, "expire"@, t, e),
                _ => true,
            }
        }),
{
    let (stmt, e) = stmt_at(s, pos).unwrap();
    let p = past_space(s, pos);
    lemma_blank_runs(s, pos);
    match stmt {
        StmtView::Renew(t) => lemma_reads_time(s, pos, "renew"@, t, e),
        StmtView::Rebind(t) => lemma_reads_time(s, pos, "rebind"@, t, e),
        StmtView::Expire(t) => lemma_reads_time(s, pos, "expire"@, t, e),
        _ => {},
    }
}

/// Whether space, a word, blanks, the time `t` and a semicolon stand from
/// `pos` to `e`.
pub open spec fn reads_time(s: Seq<char>, pos: int, word: Seq<char>, t: i64, e: int) -> bool {
    exists|space: Seq<char>, blanks: Seq<char>|
        {
            &&& only_space(space)
            &&& only_blanks(blanks) && blanks.len() > 0
            &&& stands(s, pos, #[trigger] (space + word + blanks))
            &&& datetime_at(s, pos + space.len() + word.len() + blanks.len()) == Some((t, e - 1))
            &&& 0 < e <= s.len() && s[e - 1] == ';'
        }
}

proof fn lemma_reads_time(s: Seq<char>, pos: int, word: Seq<char>, t: i64, e: int)
    requires
        0 <= pos <= s.len(),
        timed_at(s, past_space(s, pos), word) == Some((t, e - 1)),
        past_char(s, e - 1, ';') == Some(e),
    ensures
        reads_time(s, pos, word, t, e),
{
    let p = past_space(s, pos);
    lemma_stmt_start(s, pos, word);
    let r = keyword(s, p, word).unwrap();
    let space = s.subrange(pos, p);
    let blanks = s.subrange(p + word.len(), r);
    lemma_part_stands(s, pos, r);
    assert(stands(s, pos, space + word + blanks));
}

/// Whether space, the word `lease`, space, an opening brace, statements that
/// make up a lease, space and a closing brace stand from `pos` to `e`.
pub open spec fn block_stands(
    s: Seq<char>,
    pos: int,
    space: Seq<char>,
    gap: Seq<char>,
    tail: Seq<char>,
    lease: LeaseView,
    e: int,
) -> bool {
    let start = pos + space.len() + 5 + gap.len() + 1;
    &&& only_space(space) && only_space(gap) && only_space(tail)
    &&& stands(s, pos, space + "lease"@ + gap + seq!['{'])
    &&& stands(s, stmts_at(s, start).1, tail + seq!['}'])
    &&& lease == lease_of(stmts_at(s, start).0)
    &&& e == stmts_at(s, start).1 + tail.len() + 1
}

proof fn lemma_space_found(s: Seq<char>, pos: int)
    requires
        0 <= pos <= s.len(),
    ensures
        pos <= past_space(s, pos) <= s.len(),
        only_space(s.subrange(pos, past_space(s, pos))),
        stands(s, pos, s.subrange(pos, past_space(s, pos))),
{
    lemma_blank_runs(s, pos);
    let space = s.subrange(pos, past_space(s, pos));
    assert forall|i: int| 0 <= i < space.len() implies #[trigger] space[i] == ' ' || space[i]
        == '\t' || space[i] == '\r' || space[i] == '\n' by {
        assert(s[pos + i] == space[i]);
    }
}

/// What is read as a lease block is written as one: space, the word `lease`,
/// space, an opening brace, statements, space and a closing brace. It says
/// what those statements say.
pub proof fn law_blocks_are_read_between_braces(s: Seq<char>, pos: int)
    requires
        0 <= pos <= s.len(),
        lease_at(s, pos) is Some,
    ensures
        exists|space: Seq<char>, gap: Seq<char>, tail: Seq<char>| #[trigger]
            block_stands(
                s,
                pos,
                space,
                gap,
                tail,
                lease_at(s, pos).unwrap().0,
                lease_at(s, pos).unwrap().1,
            ),
{
    reveal_strlit("lease");
    let word = "lease"@;
    let (lease, e) = lease_at(s, pos).unwrap();
    lemma_space_found(s, pos);
    let p = past_space(s, pos);
    lemma_word(s, p, word);
    let q = p + 5;
    lemma_space_found(s, q);
    let r = past_space(s, q);
    let start = r + 1;
    lemma_stmts_move_on(s, start);
    let end = stmts_at(s, start).1;
    lemma_space_found(s, end);
    let close = past_space(s, end);
    let space = s.subrange(pos, p);
    let gap = s.subrange(q, r);
    let tail = s.subrange(end, close);
    lemma_stands_joined(s, pos, space, word);
    lemma_stands_joined(s, pos, space + word, gap);
    assert(stands(s, r, seq!['{']));
    lemma_stands_joined(s, pos, space + word + gap, seq!['{']);
    assert(stands(s, close, seq!['}']));
    lemma_stands_joined(s, end, tail, seq!['}']);
    assert(block_stands(s, pos, space, gap, tail, lease, e));
}

} // verus!
