//! Text: trimming, splitting, decimal numbers and comparison of strings, over
//! the sequence of characters that a string holds.

use vstd::prelude::*;
use vstd::string::*;

verus! {

/// The characters with the Unicode property `White_Space`.
pub open spec fn is_white_space(c: char) -> bool {
    ||| '\u{9}' <= c <= '\u{d}'
    ||| c == '\u{20}'
    ||| c == '\u{85}'
    ||| c == '\u{a0}'
    ||| c == '\u{1680}'
    ||| '\u{2000}' <= c <= '\u{200a}'
    ||| c == '\u{2028}'
    ||| c == '\u{2029}'
    ||| c == '\u{202f}'
    ||| c == '\u{205f}'
    ||| c == '\u{3000}'
}

/// `s` without its leading white space.
pub open spec fn trim_start_of(s: Seq<char>) -> Seq<char>
    decreases s.len(),
{
    if s.len() > 0 && is_white_space(s.first()) {
        trim_start_of(s.drop_first())
    } else {
        s
    }
}

/// `s` without its trailing white space.
pub open spec fn trim_end_of(s: Seq<char>) -> Seq<char>
    decreases s.len(),
{
    if s.len() > 0 && is_white_space(s.last()) {
        trim_end_of(s.drop_last())
    } else {
        s
    }
}

/// `s` without the white space around it.
pub open spec fn trimmed(s: Seq<char>) -> Seq<char> {
    trim_end_of(trim_start_of(s))
}

fn white_space(c: char) -> (r: bool)
    ensures
        r == is_white_space(c),
{
    ('\u{9}' <= c && c <= '\u{d}') || c == '\u{20}' || c == '\u{85}' || c == '\u{a0}' || c
        == '\u{1680}' || ('\u{2000}' <= c && c <= '\u{200a}') || c == '\u{2028}' || c == '\u{2029}'
        || c == '\u{202f}' || c == '\u{205f}' || c == '\u{3000}'
}

/// The characters of `s`, for access by position.
pub fn chars_of(s: &str) -> (r: Vec<char>)
    ensures
        r@ == s@,
{
    let mut r: Vec<char> = Vec::new();
    for c in it: s.chars()
        invariant
            it.seq() == s@,
            r@ == s@.take(it.index() as int),
    {
        r.push(c);
        assert(r@ =~= s@.take(it.index() + 1));
    }
    r
}

/// Removes the white space around `s`.
pub fn trim(s: &str) -> (r: &str)
    ensures
        r@ == trimmed(s@),
{
    let cs: Vec<char> = chars_of(s);
    let mut from: usize = 0;
    assert(s@.skip(0) =~= s@);
    while from < cs.len() && white_space(cs[from])
        invariant
            from <= cs.len(),
            cs@ == s@,
            trim_start_of(s@) == trim_start_of(s@.skip(from as int)),
        decreases cs.len() - from,
    {
        assert(s@.skip(from as int).drop_first() =~= s@.skip(from + 1));
        from = from + 1;
    }
    let ghost rest = s@.skip(from as int);
    let mut to: usize = cs.len();
    assert(rest.take(to - from) =~= rest);
    while to > from && white_space(cs[to - 1])
        invariant
            from <= to <= cs.len(),
            cs@ == s@,
            rest == s@.skip(from as int),
            trim_end_of(rest) == trim_end_of(rest.take(to - from)),
        decreases to,
    {
        assert(rest.take(to - from).drop_last() =~= rest.take(to - from - 1));
        to = to - 1;
    }
    assert(s@.subrange(from as int, to as int) =~= rest.take(to - from));
    s.substring_char(from, to)
}

/// Position of the first `c` in `s`; the length of `s` where it holds none.
pub open spec fn first_of(s: Seq<char>, c: char) -> nat
    decreases s.len(),
{
    if s.len() == 0 || s.first() == c {
        0
    } else {
        1 + first_of(s.drop_first(), c)
    }
}

/// The pieces of `s` between the separators `c`: one more than there are
/// separators.
pub open spec fn split_on(s: Seq<char>, c: char) -> Seq<Seq<char>>
    decreases s.len(),
{
    let i = first_of(s, c) as int;
    if i < s.len() {
        seq![s.take(i)] + split_on(s.skip(i + 1), c)
    } else {
        seq![s]
    }
}

/// What stands before the first `c` and what stands behind it.
pub open spec fn split_once_on(s: Seq<char>, c: char) -> Option<(Seq<char>, Seq<char>)> {
    let i = first_of(s, c) as int;
    if i < s.len() {
        Some((s.take(i), s.skip(i + 1)))
    } else {
        None
    }
}

/// The texts that a list of string slices holds.
pub open spec fn texts(v: Seq<&str>) -> Seq<Seq<char>> {
    v.map_values(|s: &str| s@)
}

/// The texts that a list of strings holds.
pub open spec fn strings(v: Seq<String>) -> Seq<Seq<char>> {
    v.map_values(|s: String| s@)
}

fn position(cs: &Vec<char>, from: usize, c: char) -> (r: usize)
    requires
        from <= cs.len(),
    ensures
        r == from + first_of(cs@.skip(from as int), c),
        r <= cs.len(),
{
    let mut r: usize = from;
    while r < cs.len() && cs[r] != c
        invariant
            from <= r <= cs.len(),
            from + first_of(cs@.skip(from as int), c) == r + first_of(cs@.skip(r as int), c),
        decreases cs.len() - r,
    {
        assert(cs@.skip(r as int).drop_first() =~= cs@.skip(r + 1));
        r = r + 1;
    }
    r
}

/// Splits `s` at every `c`.
pub fn split(s: &str, c: char) -> (r: Vec<&str>)
    ensures
        texts(r@) == split_on(s@, c),
        r.len() > 0,
{
    let cs: Vec<char> = chars_of(s);
    let mut r: Vec<&str> = Vec::new();
    let mut from: usize = 0;
    assert(s@.skip(0) =~= s@);
    assert(texts(r@) =~= Seq::empty());
    loop
        invariant
            cs@ == s@,
            from <= cs.len(),
            split_on(s@, c) == texts(r@) + split_on(s@.skip(from as int), c),
        decreases cs.len() - from,
    {
        let to: usize = position(&cs, from, c);
        let piece: &str = s.substring_char(from, to);
        let ghost before = r@;
        let ghost rest = s@.skip(from as int);
        r.push(piece);
        assert(texts(r@) =~= texts(before).push(piece@));
        if to == cs.len() {
            assert(piece@ =~= rest);
            assert(texts(r@) =~= texts(before) + seq![rest]);
            return r;
        }
        assert(piece@ =~= rest.take(to - from));
        assert(rest.skip(to - from + 1) =~= s@.skip(to + 1));
        assert(texts(before) + (seq![piece@] + split_on(s@.skip(to + 1), c)) =~= texts(r@)
            + split_on(s@.skip(to + 1), c));
        from = to + 1;
    }
}

/// Splits `s` at the first `c`.
pub fn split_once(s: &str, c: char) -> (r: Option<(&str, &str)>)
    ensures
        match r {
            Some(pair) => split_once_on(s@, c) == Some((pair.0@, pair.1@)),
            None => split_once_on(s@, c) is None,
        },
{
    let cs: Vec<char> = chars_of(s);
    let at: usize = position(&cs, 0, c);
    assert(s@.skip(0) =~= s@);
    if at == cs.len() {
        None
    } else {
        let before: &str = s.substring_char(0, at);
        let behind: &str = s.substring_char(at + 1, cs.len());
        assert(before@ =~= s@.take(at as int));
        assert(behind@ =~= s@.skip(at + 1));
        Some((before, behind))
    }
}

/// Whether two texts are equal.
pub fn same_text(a: &str, b: &str) -> (r: bool)
    ensures
        r == (a@ == b@),
{
    a.to_string() == b.to_string()
}

/// The decimal digit with the value `d`.
pub open spec fn digit_char(d: nat) -> char {
    ('0' as nat + d) as char
}

/// `n` in decimal, without leading zeros.
pub open spec fn decimal(n: nat) -> Seq<char>
    decreases n,
{
    if n < 10 {
        seq![digit_char(n)]
    } else {
        decimal(n / 10).push(digit_char(n % 10))
    }
}

/// `i` in decimal, with a minus sign where it is negative.
pub open spec fn signed_decimal(i: int) -> Seq<char> {
    if i < 0 {
        seq!['-'] + decimal((-i) as nat)
    } else {
        decimal(i as nat)
    }
}

fn digit_text(d: u128) -> (r: &'static str)
    requires
        d < 10,
    ensures
        r@ == seq![digit_char(d as nat)],
{
    proof {
        reveal_strlit("0");
        reveal_strlit("1");
        reveal_strlit("2");
        reveal_strlit("3");
        reveal_strlit("4");
        reveal_strlit("5");
        reveal_strlit("6");
        reveal_strlit("7");
        reveal_strlit("8");
        reveal_strlit("9");
    }
    match d {
        0 => "0",
        1 => "1",
        2 => "2",
        3 => "3",
        4 => "4",
        5 => "5",
        6 => "6",
        7 => "7",
        8 => "8",
        _ => "9",
    }
}

/// Writes `n` in decimal.
pub fn decimal_text(n: u128) -> (r: String)
    ensures
        r@ == decimal(n as nat),
    decreases n,
{
    if n < 10 {
        digit_text(n).to_string()
    } else {
        let mut r: String = decimal_text(n / 10);
        r.append(digit_text(n % 10));
        assert(r@ =~= decimal(n as nat));
        r
    }
}

/// Writes `i` in decimal.
pub fn signed_decimal_text(i: i32) -> (r: String)
    ensures
        r@ == signed_decimal(i as int),
{
    if i < 0 {
        proof {
            reveal_strlit("-");
        }
        let mut r: String = "-".to_string();
        let magnitude: u128 = (-(i as i64)) as u128;
        r.append(decimal_text(magnitude).as_str());
        assert("-"@ =~= seq!['-']);
        r
    } else {
        decimal_text(i as u128)
    }
}

/// Why a text is not an integer of the wanted range.
#[derive(Copy, Clone, Debug, PartialEq, Eq, Structural)]
pub enum IntError {
    Empty,
    InvalidDigit,
    PosOverflow,
    NegOverflow,
}

impl IntError {
    /// The message that names the fault.
    pub open spec fn text(self) -> Seq<char> {
        match self {
            IntError::Empty => "cannot parse integer from empty string"@,
            IntError::InvalidDigit => "invalid digit found in string"@,
            IntError::PosOverflow => "number too large to fit in target type"@,
            IntError::NegOverflow => "number too small to fit in target type"@,
        }
    }

    /// The message that names the fault.
    pub fn describe(self) -> (r: &'static str)
        ensures
            r@ == self.text(),
    {
        match self {
            IntError::Empty => "cannot parse integer from empty string",
            IntError::InvalidDigit => "invalid digit found in string",
            IntError::PosOverflow => "number too large to fit in target type",
            IntError::NegOverflow => "number too small to fit in target type",
        }
    }
}

/// The decimal digits.
pub open spec fn is_digit(c: char) -> bool {
    '0' <= c <= '9'
}

/// The value of a decimal digit.
pub open spec fn digit_value(c: char) -> nat {
    (c as nat - '0' as nat) as nat
}

/// The number that the digits `ds` write, where it is at most `limit`. The
/// first character that is no digit, or that takes the number over the limit,
/// decides the error.
pub open spec fn magnitude_of(ds: Seq<char>, limit: nat, over: IntError) -> Result<nat, IntError>
    decreases ds.len(),
{
    if ds.len() == 0 {
        Ok(0)
    } else {
        match magnitude_of(ds.drop_last(), limit, over) {
            Err(e) => Err(e),
            Ok(v) => if !is_digit(ds.last()) {
                Err(IntError::InvalidDigit)
            } else if v * 10 + digit_value(ds.last()) > limit {
                Err(over)
            } else {
                Ok(v * 10 + digit_value(ds.last()))
            },
        }
    }
}

/// The integer in `[lo, hi]` that `s` writes: digits behind an optional sign,
/// the minus sign only where the range reaches below zero.
pub open spec fn integer_of(s: Seq<char>, lo: int, hi: int) -> Result<int, IntError> {
    if s.len() == 0 {
        Err(IntError::Empty)
    } else if s.len() == 1 && (s[0] == '+' || s[0] == '-') {
        Err(IntError::InvalidDigit)
    } else if s[0] == '-' && lo < 0 {
        match magnitude_of(s.skip(1), (-lo) as nat, IntError::NegOverflow) {
            Ok(v) => Ok(-v),
            Err(e) => Err(e),
        }
    } else {
        let ds = if s[0] == '+' {
            s.skip(1)
        } else {
            s
        };
        match magnitude_of(ds, hi as nat, IntError::PosOverflow) {
            Ok(v) => Ok(v as int),
            Err(e) => Err(e),
        }
    }
}

proof fn lemma_magnitude_error_stays(ds: Seq<char>, n: int, limit: nat, over: IntError)
    requires
        0 <= n <= ds.len(),
        magnitude_of(ds.take(n), limit, over) is Err,
    ensures
        magnitude_of(ds, limit, over) == magnitude_of(ds.take(n), limit, over),
    decreases ds.len() - n,
{
    if n == ds.len() {
        assert(ds.take(n) =~= ds);
    } else {
        assert(ds.take(n + 1).drop_last() =~= ds.take(n));
        lemma_magnitude_error_stays(ds, n + 1, limit, over);
    }
}

fn magnitude(cs: &Vec<char>, from: usize, limit: u64, over: IntError) -> (r: Result<u64, IntError>)
    requires
        from <= cs.len(),
        limit <= u32::MAX,
    ensures
        match r {
            Ok(v) => magnitude_of(cs@.skip(from as int), limit as nat, over) == Ok::<
                nat,
                IntError,
            >(v as nat) && v <= limit,
            Err(e) => magnitude_of(cs@.skip(from as int), limit as nat, over) == Err::<
                nat,
                IntError,
            >(e),
        },
{
    let ghost ds = cs@.skip(from as int);
    let mut v: u64 = 0;
    let mut i: usize = from;
    while i < cs.len()
        invariant
            from <= i <= cs.len(),
            ds == cs@.skip(from as int),
            limit <= u32::MAX,
            v <= limit,
            magnitude_of(ds.take(i - from), limit as nat, over) == Ok::<nat, IntError>(v as nat),
        decreases cs.len() - i,
    {
        let c: char = cs[i];
        assert(ds.take(i + 1 - from).drop_last() =~= ds.take(i - from));
        if c < '0' || c > '9' {
            proof {
                lemma_magnitude_error_stays(ds, i + 1 - from, limit as nat, over);
            }
            return Err(IntError::InvalidDigit);
        }
        let d: u64 = (c as u32 - '0' as u32) as u64;
        if v * 10 + d > limit {
            proof {
                lemma_magnitude_error_stays(ds, i + 1 - from, limit as nat, over);
            }
            return Err(over);
        }
        v = v * 10 + d;
        i = i + 1;
    }
    assert(ds.take(i - from) =~= ds);
    Ok(v)
}

/// Reads an integer of the range `[lo, hi]`.
pub fn parse_integer(s: &str, lo: i64, hi: i64) -> (r: Result<i64, IntError>)
    requires
        -0x8000_0000 <= lo <= 0 <= hi <= 0xffff_ffff,
    ensures
        match r {
            Ok(v) => integer_of(s@, lo as int, hi as int) == Ok::<int, IntError>(v as int) && lo
                <= v <= hi,
            Err(e) => integer_of(s@, lo as int, hi as int) == Err::<int, IntError>(e),
        },
{
    let cs: Vec<char> = chars_of(s);
    if cs.len() == 0 {
        return Err(IntError::Empty);
    }
    if cs.len() == 1 && (cs[0] == '+' || cs[0] == '-') {
        return Err(IntError::InvalidDigit);
    }
    if cs[0] == '-' && lo < 0 {
        match magnitude(&cs, 1, (-lo) as u64, IntError::NegOverflow) {
            Ok(v) => Ok(-(v as i64)),
            Err(e) => Err(e),
        }
    } else {
        let from: usize = if cs[0] == '+' {
            1
        } else {
            0
        };
        assert(s@.skip(0) =~= s@);
        match magnitude(&cs, from, hi as u64, IntError::PosOverflow) {
            Ok(v) => Ok(v as i64),
            Err(e) => Err(e),
        }
    }
}

proof fn lemma_decimal_digits(n: nat, limit: nat, over: IntError)
    requires
        n <= limit,
    ensures
        magnitude_of(decimal(n), limit, over) == Ok::<nat, IntError>(n),
        decimal(n).len() > 0,
        forall|i: int| 0 <= i < decimal(n).len() ==> is_digit(#[trigger] decimal(n)[i]),
    decreases n,
{
    let last = (n % 10) as nat;
    assert(is_digit(digit_char(last)) && digit_value(digit_char(last)) == last);
    if n < 10 {
        assert(decimal(n).drop_last() =~= Seq::<char>::empty());
        assert(magnitude_of(Seq::<char>::empty(), limit, over) == Ok::<nat, IntError>(0));
    } else {
        lemma_decimal_digits(n / 10, limit, over);
        assert(decimal(n).drop_last() =~= decimal(n / 10));
        assert forall|i: int| 0 <= i < decimal(n).len() implies is_digit(
            #[trigger] decimal(n)[i],
        ) by {
            if i < decimal(n / 10).len() {
                assert(decimal(n)[i] == decimal(n / 10)[i]);
            }
        }
    }
}

/// Reading back what was written: the decimal form of an integer reads as that
/// integer wherever the range holds it.
pub proof fn decimal_reads_back(i: int, lo: int, hi: int)
    requires
        lo <= i <= hi,
        lo <= 0 <= hi,
    ensures
        integer_of(signed_decimal(i), lo, hi) == Ok::<int, IntError>(i),
{
    if i < 0 {
        lemma_decimal_digits((-i) as nat, (-lo) as nat, IntError::NegOverflow);
        assert(signed_decimal(i).skip(1) =~= decimal((-i) as nat));
    } else {
        lemma_decimal_digits(i as nat, hi as nat, IntError::PosOverflow);
        assert(is_digit(decimal(i as nat)[0]));
    }
}

/// `c` with a letter of A-Z turned into the small one.
pub open spec fn ascii_lower(c: char) -> char {
    if 'A' <= c <= 'Z' {
        (c as nat + 32) as char
    } else {
        c
    }
}

/// `s` with the letters A-Z turned into the small ones.
pub open spec fn lower(s: Seq<char>) -> Seq<char> {
    s.map_values(|c: char| ascii_lower(c))
}

/// `str::to_ascii_lowercase` of std: a copy in which each of the letters A-Z is
/// replaced by its small form, and every other character is kept.
pub assume_specification[ str::to_ascii_lowercase ](s: &str) -> (r: String)
    ensures
        r@ == lower(s@),
;

/// The lexicographic order of texts by code point.
pub open spec fn text_less(a: Seq<char>, b: Seq<char>) -> bool
    decreases b.len(),
{
    if b.len() == 0 {
        false
    } else if a.len() == 0 {
        true
    } else if a.first() != b.first() {
        a.first() < b.first()
    } else {
        text_less(a.drop_first(), b.drop_first())
    }
}

/// Whether `a` stands before `b` in the lexicographic order.
pub fn stands_before(a: &str, b: &str) -> (r: bool)
    ensures
        r == text_less(a@, b@),
{
    let ac: Vec<char> = chars_of(a);
    let bc: Vec<char> = chars_of(b);
    let mut i: usize = 0;
    assert(a@.skip(0) =~= a@ && b@.skip(0) =~= b@);
    while i < ac.len() && i < bc.len() && ac[i] == bc[i]
        invariant
            i <= ac.len(),
            i <= bc.len(),
            ac@ == a@,
            bc@ == b@,
            text_less(a@, b@) == text_less(a@.skip(i as int), b@.skip(i as int)),
        decreases ac.len() - i,
    {
        assert(a@.skip(i as int).drop_first() =~= a@.skip(i + 1));
        assert(b@.skip(i as int).drop_first() =~= b@.skip(i + 1));
        i = i + 1;
    }
    if i >= bc.len() {
        false
    } else if i >= ac.len() {
        true
    } else {
        ac[i] < bc[i]
    }
}

proof fn lemma_text_less_irreflexive(a: Seq<char>)
    ensures
        !text_less(a, a),
    decreases a.len(),
{
    if a.len() > 0 {
        lemma_text_less_irreflexive(a.drop_first());
    }
}

/// The order of texts is strict and total: no text stands before itself, of two
/// different texts exactly one stands before the other, and the order carries on.
pub proof fn text_order_is_total(a: Seq<char>, b: Seq<char>, c: Seq<char>)
    ensures
        !text_less(a, a),
        a != b ==> text_less(a, b) != text_less(b, a),
        text_less(a, b) && text_less(b, c) ==> text_less(a, c),
    decreases a.len() + b.len() + c.len(),
{
    if a.len() > 0 && b.len() > 0 && a.first() == b.first() {
        if c.len() > 0 {
            text_order_is_total(a.drop_first(), b.drop_first(), c.drop_first());
        } else {
            text_order_is_total(a.drop_first(), b.drop_first(), c);
        }
        if a != b {
            if a.drop_first() =~= b.drop_first() {
                assert(a =~= seq![a.first()] + a.drop_first());
                assert(b =~= seq![b.first()] + b.drop_first());
            }
        }
    }
    lemma_text_less_irreflexive(a);
    if a.len() == 0 && b.len() == 0 {
        assert(a =~= b);
    }
}

/// The parts with `sep` between each two of them.
pub open spec fn joined(parts: Seq<Seq<char>>, sep: Seq<char>) -> Seq<char>
    decreases parts.len(),
{
    if parts.len() == 0 {
        seq![]
    } else if parts.len() == 1 {
        parts[0]
    } else {
        joined(parts.drop_last(), sep) + sep + parts.last()
    }
}

// ---------------------------------------------------------------------------
// Laws
// ---------------------------------------------------------------------------

/// White space is what Unicode calls so: these code points and no others.
pub proof fn white_space_is_listed(c: char)
    ensures
        is_white_space(c) <==> seq![
            0x9int, 0xa, 0xb, 0xc, 0xd, 0x20, 0x85, 0xa0, 0x1680, 0x2000, 0x2001, 0x2002, 0x2003,
            0x2004, 0x2005, 0x2006, 0x2007, 0x2008, 0x2009, 0x200a, 0x2028, 0x2029, 0x202f, 0x205f,
            0x3000,
        ].contains(c as int),
{
    let all = seq![
        0x9int, 0xa, 0xb, 0xc, 0xd, 0x20, 0x85, 0xa0, 0x1680, 0x2000, 0x2001, 0x2002, 0x2003,
        0x2004, 0x2005, 0x2006, 0x2007, 0x2008, 0x2009, 0x200a, 0x2028, 0x2029, 0x202f, 0x205f,
        0x3000,
    ];
    let n = c as int;
    if is_white_space(c) {
        let i = if n <= 0xd {
            n - 9
        } else if n == 0x20 {
            5
        } else if n == 0x85 {
            6
        } else if n == 0xa0 {
            7
        } else if n == 0x1680 {
            8
        } else if n <= 0x200a {
            n - 0x2000 + 9
        } else if n == 0x2028 {
            20
        } else if n == 0x2029 {
            21
        } else if n == 0x202f {
            22
        } else if n == 0x205f {
            23
        } else {
            24
        };
        assert(all[i] == n);
    }
}

proof fn lemma_trim_start(s: Seq<char>) -> (from: int)
    ensures
        0 <= from <= s.len(),
        trim_start_of(s) == s.skip(from),
        forall|k: int| 0 <= k < from ==> is_white_space(#[trigger] s[k]),
        from < s.len() ==> !is_white_space(s[from]),
    decreases s.len(),
{
    if s.len() > 0 && is_white_space(s.first()) {
        let rest = s.drop_first();
        let at = lemma_trim_start(rest);
        assert(rest.skip(at) =~= s.skip(at + 1));
        assert forall|k: int| 0 <= k < at + 1 implies is_white_space(#[trigger] s[k]) by {
            if k > 0 {
                assert(rest[k - 1] == s[k]);
            }
        }
        at + 1
    } else {
        assert(s.skip(0) =~= s);
        0
    }
}

proof fn lemma_trim_end(s: Seq<char>) -> (to: int)
    ensures
        0 <= to <= s.len(),
        trim_end_of(s) == s.take(to),
        forall|k: int| to <= k < s.len() ==> is_white_space(#[trigger] s[k]),
        to > 0 ==> !is_white_space(s[to - 1]),
    decreases s.len(),
{
    if s.len() > 0 && is_white_space(s.last()) {
        let rest = s.drop_last();
        let at = lemma_trim_end(rest);
        assert(rest.take(at) =~= s.take(at));
        assert forall|k: int| at <= k < s.len() implies is_white_space(#[trigger] s[k]) by {
            if k < rest.len() {
                assert(rest[k] == s[k]);
            }
        }
        at
    } else {
        assert(s.take(s.len() as int) =~= s);
        s.len() as int
    }
}

/// Whether cutting `s` down to the stretch from `from` to `to` takes away white space
/// only, and all of it at both ends.
pub open spec fn is_trimming(s: Seq<char>, from: int, to: int) -> bool {
    &&& 0 <= from <= to <= s.len()
    &&& forall|k: int| 0 <= k < from || to <= k < s.len() ==> is_white_space(#[trigger] s[k])
    &&& from < to ==> !is_white_space(s[from]) && !is_white_space(s[to - 1])
}

/// Trimming takes the white space at both ends away, all of it and nothing else.
pub proof fn trimming_takes_white_space_away(s: Seq<char>)
    ensures
        exists|from: int, to: int| #[trigger]
            is_trimming(s, from, to) && trimmed(s) == s.subrange(from, to),
{
    let from = lemma_trim_start(s);
    let rest = s.skip(from);
    let end = lemma_trim_end(rest);
    let to = from + end;
    assert(rest.take(end) =~= s.subrange(from, to));
    assert forall|k: int| 0 <= k < from || to <= k < s.len() implies is_white_space(
        #[trigger] s[k],
    ) by {
        if k >= to {
            assert(rest[k - from] == s[k]);
        }
    }
    if from < to {
        assert(rest[0] == s[from]);
        assert(rest[end - 1] == s[to - 1]);
    }
    assert(is_trimming(s, from, to));
}

/// A text without white space at its ends is left alone.
pub proof fn trimming_leaves_the_rest_alone(s: Seq<char>)
    requires
        s.len() > 0 ==> !is_white_space(s[0]) && !is_white_space(s[s.len() - 1]),
    ensures
        trimmed(s) == s,
{
}

proof fn lemma_decimal_are_digits(n: nat)
    ensures
        decimal(n).len() > 0,
        forall|i: int| 0 <= i < decimal(n).len() ==> is_digit(#[trigger] decimal(n)[i]),
{
    lemma_decimal_digits(n, n, IntError::PosOverflow);
}

/// No digit is white space, so that trimming leaves a number as it is.
pub proof fn decimal_has_no_white_space(n: nat)
    ensures
        trimmed(decimal(n)) == decimal(n),
        forall|i: int| 0 <= i < decimal(n).len() ==> '0' <= #[trigger] decimal(n)[i] <= '9',
{
    lemma_decimal_are_digits(n);
    trimming_leaves_the_rest_alone(decimal(n));
}

proof fn lemma_first_of(s: Seq<char>, c: char)
    ensures
        first_of(s, c) <= s.len(),
        forall|k: int| 0 <= k < first_of(s, c) ==> #[trigger] s[k] != c,
        first_of(s, c) < s.len() ==> s[first_of(s, c) as int] == c,
    decreases s.len(),
{
    if s.len() > 0 && s.first() != c {
        let rest = s.drop_first();
        lemma_first_of(rest, c);
        assert forall|k: int| 0 <= k < first_of(s, c) implies #[trigger] s[k] != c by {
            if k > 0 {
                assert(rest[k - 1] == s[k]);
            }
        }
    }
}

/// A text without the separator is one piece, and a separator parts the pieces before
/// it from those behind it.
pub proof fn splitting_parts_at_each_separator(a: Seq<char>, c: char, b: Seq<char>)
    ensures
        !a.contains(c) ==> split_on(a, c) == seq![a],
        split_on(a + seq![c] + b, c) == split_on(a, c) + split_on(b, c),
    decreases a.len(),
{
    lemma_first_of(a, c);
    let whole = a + seq![c] + b;
    lemma_first_of(whole, c);
    let i = first_of(a, c) as int;
    let j = first_of(whole, c) as int;
    assert(whole[a.len() as int] == c);
    if i < a.len() {
        assert(a.contains(c)) by {
            assert(a[i] == c);
        }
        assert(whole[i] == a[i]);
        if j < i {
            assert(a[j] == whole[j]);
        }
        assert(j == i);
        let rest = a.skip(i + 1);
        splitting_parts_at_each_separator(rest, c, b);
        assert(whole.take(j) =~= a.take(i));
        assert(whole.skip(j + 1) =~= rest + seq![c] + b);
        assert(seq![a.take(i)] + (split_on(rest, c) + split_on(b, c)) =~= (seq![a.take(i)]
            + split_on(rest, c)) + split_on(b, c));
    } else {
        if j < a.len() {
            assert(a[j] == whole[j]);
        }
        assert(j == a.len());
        assert(whole.take(j) =~= a);
        assert(whole.skip(j + 1) =~= b);
    }
}

/// A text is parted at its first separator: there is none in what stands before it,
/// and what stands behind it is everything else. Without a separator there are no
/// parts.
pub proof fn first_separator_parts_the_text(s: Seq<char>, a: Seq<char>, c: char, b: Seq<char>)
    ensures
        split_once_on(s, c) is None <==> !s.contains(c),
        split_once_on(s, c) == Some((a, b)) <==> s == a + seq![c] + b && !a.contains(c),
{
    lemma_first_of(s, c);
    let i = first_of(s, c) as int;
    if s.contains(c) {
        let k = choose|k: int| 0 <= k < s.len() && s[k] == c;
        assert(i <= k);
    } else if i < s.len() {
        assert(s.contains(s[i]));
    }
    if i < s.len() {
        assert(s =~= s.take(i) + seq![c] + s.skip(i + 1));
        assert(!s.take(i).contains(c)) by {
            if s.take(i).contains(c) {
                let k = choose|k: int| 0 <= k < i && s.take(i)[k] == c;
                assert(s[k] == c);
            }
        }
    }
    if s == a + seq![c] + b && !a.contains(c) {
        assert(s[a.len() as int] == c);
        if i < a.len() {
            assert(a[i] == s[i]);
            assert(a.contains(c));
        }
        assert(i == a.len());
        assert(s.take(i) =~= a);
        assert(s.skip(i + 1) =~= b);
    }
}

/// A number below ten is written as its digit, and ten times a number plus a digit is
/// written as that number with the digit behind it. A minus sign makes it negative.
pub proof fn decimal_grows_by_digits(n: nat, d: nat)
    requires
        d < 10,
    ensures
        decimal(d).len() == 1,
        decimal(d)[0] as int == 48 + d,
        n > 0 ==> decimal(10 * n + d) == decimal(n) + decimal(d),
        signed_decimal(n as int) == decimal(n),
        n > 0 ==> signed_decimal(-n) == seq!['-'] + decimal(n),
{
    if n > 0 {
        assert((10 * n + d) / 10 == n && (10 * n + d) % 10 == d);
        assert(decimal(10 * n + d) =~= decimal(n) + decimal(d));
    }
}

proof fn lemma_magnitude_bounds(ds: Seq<char>, limit: nat, over: IntError)
    ensures
        magnitude_of(ds, limit, over) matches Ok(v) ==> v <= limit && forall|k: int|
            0 <= k < ds.len() ==> is_digit(#[trigger] ds[k]),
        magnitude_of(ds, limit, over) matches Err(e) ==> e == over || e == IntError::InvalidDigit,
    decreases ds.len(),
{
    if ds.len() > 0 {
        let front = ds.drop_last();
        lemma_magnitude_bounds(front, limit, over);
        if magnitude_of(ds, limit, over) is Ok {
            assert forall|k: int| 0 <= k < ds.len() implies is_digit(#[trigger] ds[k]) by {
                if k < front.len() {
                    assert(front[k] == ds[k]);
                }
            }
        }
    }
}

/// What is read is in the range that was asked for.
pub proof fn integers_stay_in_range(s: Seq<char>, lo: int, hi: int)
    requires
        lo <= 0 <= hi,
    ensures
        integer_of(s, lo, hi) matches Ok(v) ==> lo <= v <= hi,
        integer_of(s, lo, hi) matches Ok(v) ==> s.len() > 0,
{
    if s.len() > 0 {
        lemma_magnitude_bounds(s.skip(1), (-lo) as nat, IntError::NegOverflow);
        lemma_magnitude_bounds(s.skip(1), hi as nat, IntError::PosOverflow);
        lemma_magnitude_bounds(s, hi as nat, IntError::PosOverflow);
    }
}

/// Reading one more digit: what a text writes, with a digit behind it, is ten times
/// as much and the digit on top, or too much for the range. A character that is no
/// digit, or an error before it, is an error.
pub proof fn integer_grows_by_digits(s: Seq<char>, c: char, lo: int, hi: int, v: int)
    requires
        lo <= 0 <= hi,
        integer_of(s, lo, hi) == Ok::<int, IntError>(v),
    ensures
        !('0' <= c <= '9') ==> integer_of(s.push(c), lo, hi) == Err::<int, IntError>(
            IntError::InvalidDigit,
        ),
        '0' <= c <= '9' && s[0] == '-' ==> integer_of(s.push(c), lo, hi) == (if 10 * v - (c as int
            - 48) >= lo {
            Ok::<int, IntError>(10 * v - (c as int - 48))
        } else {
            Err::<int, IntError>(IntError::NegOverflow)
        }),
        '0' <= c <= '9' && s[0] != '-' ==> integer_of(s.push(c), lo, hi) == (if 10 * v + (c as int
            - 48) <= hi {
            Ok::<int, IntError>(10 * v + (c as int - 48))
        } else {
            Err::<int, IntError>(IntError::PosOverflow)
        }),
{
    let t = s.push(c);
    assert(s.len() > 0);
    assert(t[0] == s[0]);
    assert(t.skip(1).drop_last() =~= s.skip(1));
    assert(t.drop_last() =~= s);
    if s.len() > 1 || !(s[0] == '+' || s[0] == '-') {
        if s[0] == '-' && lo >= 0 {
            lemma_magnitude_bounds(s, hi as nat, IntError::PosOverflow);
            assert(is_digit(s[0]));
        }
    }
}

/// The shortest numbers: a digit, alone or behind a sign, reads as that digit. The
/// minus sign is taken only where the range reaches below zero. Nothing, and a sign
/// alone, is no number.
pub proof fn single_digits_are_read(c: char, lo: int, hi: int)
    requires
        lo <= 0 <= hi,
    ensures
        integer_of(Seq::<char>::empty(), lo, hi) == Err::<int, IntError>(IntError::Empty),
        integer_of(seq!['+'], lo, hi) == Err::<int, IntError>(IntError::InvalidDigit),
        integer_of(seq!['-'], lo, hi) == Err::<int, IntError>(IntError::InvalidDigit),
        '0' <= c <= '9' && c as int - 48 <= hi ==> integer_of(seq![c], lo, hi) == Ok::<int, IntError>(
            c as int - 48,
        ) && integer_of(seq!['+', c], lo, hi) == Ok::<int, IntError>(c as int - 48),
        '0' <= c <= '9' && c as int - 48 > hi ==> integer_of(seq![c], lo, hi) == Err::<int, IntError>(
            IntError::PosOverflow,
        ),
        '0' <= c <= '9' && lo < 0 && lo <= 48 - c as int ==> integer_of(seq!['-', c], lo, hi) == Ok::<
            int,
            IntError,
        >(48 - c as int),
        '0' <= c <= '9' && lo == 0 ==> integer_of(seq!['-', c], lo, hi) == Err::<int, IntError>(
            IntError::InvalidDigit,
        ),
        !('0' <= c <= '9') ==> integer_of(seq![c], lo, hi) == Err::<int, IntError>(
            IntError::InvalidDigit,
        ),
        '0' <= c <= '9' && 48 - (c as int) < lo < 0 ==> integer_of(seq!['-', c], lo, hi) == Err::<
            int,
            IntError,
        >(IntError::NegOverflow),
        !('0' <= c <= '9') ==> integer_of(seq!['+', c], lo, hi) == Err::<int, IntError>(
            IntError::InvalidDigit,
        ) && integer_of(seq!['-', c], lo, hi) == Err::<int, IntError>(IntError::InvalidDigit),
{
    let none = Seq::<char>::empty();
    assert(seq![c].drop_last() =~= none);
    assert(magnitude_of(none, hi as nat, IntError::PosOverflow) == Ok::<nat, IntError>(0));
    assert(magnitude_of(none, (-lo) as nat, IntError::NegOverflow) == Ok::<nat, IntError>(0));
    assert(seq!['+', c].skip(1) =~= seq![c]);
    assert(seq!['-', c].skip(1) =~= seq![c]);
    assert(seq!['-', c].drop_last() =~= seq!['-']);
    assert(seq!['-'].drop_last() =~= none);
}

/// An error stays an error, whatever follows: once a text cannot be read, no text that
/// continues it can, but for the empty text and a sign alone.
pub proof fn integer_errors_stay(s: Seq<char>, c: char, lo: int, hi: int)
    requires
        lo <= 0 <= hi,
        integer_of(s, lo, hi) is Err,
        s.len() > 1 || (s.len() == 1 && s[0] != '+' && s[0] != '-'),
    ensures
        integer_of(s.push(c), lo, hi) == integer_of(s, lo, hi),
{
    let t = s.push(c);
    assert(t.skip(1).drop_last() =~= s.skip(1));
    assert(t.drop_last() =~= s);
    assert(t[0] == s[0]);
}

/// Texts are compared at the first character in which they differ; a text stands
/// before every longer one that continues it.
pub proof fn first_difference_decides_the_order(p: Seq<char>, a: Seq<char>, b: Seq<char>)
    ensures
        text_less(p + a, p + b) <==> text_less(a, b),
        a.len() > 0 ==> text_less(Seq::<char>::empty(), a),
        !text_less(a, Seq::<char>::empty()),
        a.len() > 0 && b.len() > 0 && a[0] != b[0] ==> (text_less(a, b) <==> a[0] < b[0]),
    decreases p.len(),
{
    if p.len() > 0 {
        first_difference_decides_the_order(p.drop_first(), a, b);
        assert((p + a).drop_first() =~= p.drop_first() + a);
        assert((p + b).drop_first() =~= p.drop_first() + b);
    } else {
        assert(p + a =~= a);
        assert(p + b =~= b);
    }
}

/// Lowering turns each of the 26 large letters of ASCII into its small one and keeps
/// every other character and the length.
pub proof fn lowering_turns_large_letters_small(s: Seq<char>, i: int)
    requires
        0 <= i < s.len(),
    ensures
        lower(s).len() == s.len(),
        65 <= s[i] as int <= 90 ==> lower(s)[i] as int == s[i] as int + 32,
        !(65 <= s[i] as int <= 90) ==> lower(s)[i] == s[i],
{
}

/// Joining puts the separator between the parts and nowhere else.
pub proof fn joining_puts_the_separator_between(a: Seq<Seq<char>>, p: Seq<char>, sep: Seq<char>)
    ensures
        joined(Seq::<Seq<char>>::empty(), sep) == Seq::<char>::empty(),
        joined(seq![p], sep) == p,
        a.len() > 0 ==> joined(a.push(p), sep) == joined(a, sep) + sep + p,
{
    assert(a.push(p).drop_last() =~= a);
}

/// Trimming again changes nothing.
pub proof fn trimming_twice_is_trimming_once(s: Seq<char>)
    ensures
        trimmed(trimmed(s)) == trimmed(s),
{
    trimming_takes_white_space_away(s);
    let (from, to) = choose|from: int, to: int| #[trigger]
        is_trimming(s, from, to) && trimmed(s) == s.subrange(from, to);
    trimming_leaves_the_rest_alone(trimmed(s));
}

/// Each fault of a number has its own message.
pub proof fn number_faults_have_their_messages()
    ensures
        IntError::Empty.text() == "cannot parse integer from empty string"@,
        IntError::InvalidDigit.text() == "invalid digit found in string"@,
        IntError::PosOverflow.text() == "number too large to fit in target type"@,
        IntError::NegOverflow.text() == "number too small to fit in target type"@,
{
}

/// The texts of a list are those of its members, in order.
pub proof fn texts_are_those_of_the_members(v: Vec<String>, w: Vec<&str>, i: int)
    ensures
        strings(v@).len() == v@.len(),
        texts(w@).len() == w@.len(),
        0 <= i < v@.len() ==> strings(v@)[i] == v@[i]@,
        0 <= i < w@.len() ==> texts(w@)[i] == w@[i]@,
{
}

} // verus!
