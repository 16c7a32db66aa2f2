//! A signed hours:minutes:seconds value and its `[-]HH:MM:SS` text form.
use vstd::prelude::*;
use vstd::arithmetic::div_mod::*;
use vstd::std_specs::ops::{AddSpec, SubSpec};

verus! {

/// Quotient rounded toward zero, as Rust's `/` on signed integers rounds.
pub open spec fn trunc_div(a: int, b: int) -> int {
    if a >= 0 {
        a / b
    } else {
        -((-a) / b)
    }
}

/// Remainder paired with `trunc_div`: it takes the sign of the dividend.
pub open spec fn trunc_rem(a: int, b: int) -> int {
    a - trunc_div(a, b) * b
}

pub open spec fn abs(a: int) -> nat {
    if a < 0 {
        (-a) as nat
    } else {
        a as nat
    }
}

pub open spec fn fits_i64(v: int) -> bool {
    i64::MIN <= v <= i64::MAX
}

pub open spec fn is_digit(c: char) -> bool {
    '0' <= c <= '9'
}

pub open spec fn digit_value(c: char) -> nat {
    (c as u32 - '0' as u32) as nat
}

/// The character of the decimal digit `d` (`d < 10`).
pub open spec fn digit_char(d: nat) -> char {
    if d == 0 {
        '0'
    } else if d == 1 {
        '1'
    } else if d == 2 {
        '2'
    } else if d == 3 {
        '3'
    } else if d == 4 {
        '4'
    } else if d == 5 {
        '5'
    } else if d == 6 {
        '6'
    } else if d == 7 {
        '7'
    } else if d == 8 {
        '8'
    } else {
        '9'
    }
}

/// The decimal digits of `n`, without leading zeros.
pub open spec fn decimal(n: nat) -> Seq<char>
    decreases n,
{
    if n < 10 {
        seq![digit_char(n)]
    } else {
        decimal(n / 10).push(digit_char(n % 10))
    }
}

/// The decimal digits of `n`, zero-padded to at least two digits.
pub open spec fn padded(n: nat) -> Seq<char> {
    if n < 10 {
        seq!['0', digit_char(n)]
    } else {
        decimal(n)
    }
}

/// The canonical text of a time of `total` seconds: one leading `-` when it is
/// negative, then the unsigned hours, minutes and seconds of its magnitude.
pub open spec fn format_total(total: int) -> Seq<char> {
    let a = abs(total);
    let sign: Seq<char> = if total < 0 {
        seq!['-']
    } else {
        Seq::empty()
    };
    sign + padded(a / 3600) + seq![':'] + padded((a / 60) % 60) + seq![':'] + padded(a % 60)
}

/// The value of a string of decimal digits.
pub open spec fn digits_value(t: Seq<char>) -> nat
    decreases t.len(),
{
    if t.len() == 0 {
        0
    } else {
        digits_value(t.drop_last()) * 10 + digit_value(t.last())
    }
}

pub open spec fn all_digits(t: Seq<char>) -> bool {
    forall|i: int| 0 <= i < t.len() ==> is_digit(#[trigger] t[i])
}

/// A field of the time grammar: one or more ASCII digits whose value fits in an `i64`.
pub open spec fn is_field(t: Seq<char>) -> bool {
    t.len() > 0 && all_digits(t) && digits_value(t) <= i64::MAX
}

pub open spec fn is_negative_text(s: Seq<char>) -> bool {
    s.len() > 0 && s[0] == '-'
}

/// The text without its leading `-`, if it has one.
pub open spec fn unsigned_part(s: Seq<char>) -> Seq<char> {
    if is_negative_text(s) {
        s.drop_first()
    } else {
        s
    }
}

/// The pieces of `s` between its colons, in order; `n` colons give `n + 1` pieces.
pub open spec fn split_colons(s: Seq<char>) -> Seq<Seq<char>>
    decreases s.len(),
{
    if s.len() == 0 {
        seq![Seq::empty()]
    } else {
        let prev = split_colons(s.drop_last());
        if s.last() == ':' {
            prev.push(Seq::empty())
        } else {
            prev.update(prev.len() - 1, prev.last().push(s.last()))
        }
    }
}

/// The colon-separated fields of a time text.
pub open spec fn fields(s: Seq<char>) -> Seq<Seq<char>> {
    split_colons(unsigned_part(s))
}

/// The first of three fields that is not a valid field, if any.
pub open spec fn bad_field(f: Seq<Seq<char>>) -> Option<Seq<char>> {
    if !is_field(f[0]) {
        Some(f[0])
    } else if !is_field(f[1]) {
        Some(f[1])
    } else if !is_field(f[2]) {
        Some(f[2])
    } else {
        None
    }
}

/// The number of seconds that a time text with three valid fields denotes.
pub open spec fn text_total(s: Seq<char>) -> int {
    let f = fields(s);
    let magnitude = digits_value(f[0]) as int * 3600 + digits_value(f[1]) as int * 60
        + digits_value(f[2]) as int;
    if is_negative_text(s) {
        -magnitude
    } else {
        magnitude
    }
}

/// The one-character text of the decimal digit `d`.
fn digit_text(d: u64) -> (r: &'static str)
    requires
        d < 10,
    ensures
        r@ == seq![digit_char(d as nat)],
{
    proof {
        reveal_strlit("0");
        reveal_strlit("1");
        reveal_strlit("2");
        reveal_strlit("3");
        reveal_strlit("4");
        reveal_strlit("5");
        reveal_strlit("6");
        reveal_strlit("7");
        reveal_strlit("8");
        reveal_strlit("9");
    }
    match d {
        0 => "0",
        1 => "1",
        2 => "2",
        3 => "3",
        4 => "4",
        5 => "5",
        6 => "6",
        7 => "7",
        8 => "8",
        _ => "9",
    }
}

fn push_decimal(out: &mut String, n: u64)
    ensures
        final(out)@ == old(out)@ + decimal(n as nat),
    decreases n,
{
    if n >= 10 {
        push_decimal(out, n / 10);
    }
    out.append(digit_text(n % 10));
    proof {
        assert(old(out)@ + decimal(n as nat) =~= final(out)@);
    }
}

fn push_padded(out: &mut String, n: u64)
    ensures
        final(out)@ == old(out)@ + padded(n as nat),
{
    if n < 10 {
        out.append("0");
        proof {
            reveal_strlit("0");
        }
    }
    push_decimal(out, n);
    proof {
        assert(old(out)@ + padded(n as nat) =~= final(out)@);
    }
}

fn chars_of(s: &str) -> (r: Vec<char>)
    ensures
        r@ == s@,
{
    let mut r: Vec<char> = Vec::new();
    for c in it: s.chars()
        invariant
            r@ == it.seq().take(it.index() as int),
            it.seq() == s@,
    {
        r.push(c);
    }
    r
}

/// Reads `cs[lo..hi]` as a field of the time grammar.
fn read_field(cs: &Vec<char>, lo: usize, hi: usize) -> (r: Option<u64>)
    requires
        lo <= hi <= cs.len(),
    ensures
        r is Some <==> is_field(cs@.subrange(lo as int, hi as int)),
        r matches Some(v) ==> v == digits_value(cs@.subrange(lo as int, hi as int)),
{
    if lo == hi {
        return None;
    }
    let mut v: u64 = 0;
    let mut over = false;
    let mut i: usize = lo;
    while i < hi
        invariant
            lo <= i <= hi <= cs.len(),
            all_digits(cs@.subrange(lo as int, i as int)),
            !over ==> v == digits_value(cs@.subrange(lo as int, i as int)) && v <= i64::MAX,
            over ==> digits_value(cs@.subrange(lo as int, i as int)) > i64::MAX,
        decreases hi - i,
    {
        let c = cs[i];
        if !('0' <= c && c <= '9') {
            proof {
                let t = cs@.subrange(lo as int, hi as int);
                assert(!is_digit(t[i - lo]));
            }
            return None;
        }
        let d: u64 = (c as u32 - '0' as u32) as u64;
        let ghost prev = digits_value(cs@.subrange(lo as int, i as int));
        proof {
            let t = cs@.subrange(lo as int, i + 1);
            assert(t.drop_last() =~= cs@.subrange(lo as int, i as int));
            assert(t.last() == c);
            assert(digits_value(t) == prev * 10 + d);
        }
        if !over {
            if v > (i64::MAX as u64 - d) / 10 {
                over = true;
                assert(v * 10 + d > i64::MAX) by (nonlinear_arith)
                    requires
                        v > (i64::MAX as u64 - d) / 10,
                        d < 10,
                ;
            } else {
                assert(v * 10 + d <= i64::MAX) by (nonlinear_arith)
                    requires
                        v <= (i64::MAX as u64 - d) / 10,
                        d < 10,
                ;
                v = v * 10 + d;
            }
        }
        i = i + 1;
    }
    if over {
        None
    } else {
        Some(v)
    }
}

/// Why a text is not a time.
#[derive(Debug, Clone)]
pub enum TimeError {
    /// The text does not hold exactly three colon-separated fields; this is their count.
    Length(usize),
    /// This field is not a decimal integer.
    Field(String),
    /// The fields are valid but the time they denote does not fit in an `i64` count of seconds.
    OutOfRange,
}

/// A signed number of seconds, read as hours, minutes and seconds.
/// It is not tied to a date: it may pass 24 hours or be negative.
#[derive(Debug, Clone, Copy, PartialEq, Eq, Structural)]
pub struct Time(i64);

impl View for Time {
    type V = int;

    closed spec fn view(&self) -> int {
        self.0 as int
    }
}

impl Time {
    /// The time `h * 3600 + m * 60 + s` seconds; minutes and seconds beyond
    /// 0..60, or negative, carry into the larger units.
    pub fn new(h: i64, m: i64, s: i64) -> (r: Time)
        requires
            fits_i64(h * 3600 + m * 60 + s),
        ensures
            r@ == h * 3600 + m * 60 + s,
    {
        let total: i128 = h as i128 * 3600 + m as i128 * 60 + s as i128;
        Time(total as i64)
    }

    /// The whole number of seconds.
    pub fn seconds(&self) -> (r: i64)
        ensures
            r == self@,
    {
        self.0
    }

    /// The canonical text: `-` when the time is negative, then the hours,
    /// minutes and seconds of its magnitude, each zero-padded to two digits.
    pub fn to_string(&self) -> (r: String)
        ensures
            r@ == format_total(self@),
    {
        let a: u64 = if self.0 < 0 {
            (-(self.0 as i128)) as u64
        } else {
            self.0 as u64
        };
        let mut out = String::new();
        if self.0 < 0 {
            out.append("-");
        }
        push_padded(&mut out, a / 3600);
        out.append(":");
        push_padded(&mut out, a / 60 % 60);
        out.append(":");
        push_padded(&mut out, a % 60);
        proof {
            reveal_strlit("-");
            reveal_strlit(":");
            assert(out@ =~= format_total(self@));
        }
        out
    }

    /// Reads a time from `[-]H:M:S`, each field one or more decimal digits.
    /// A leading `-` negates the whole time.
    pub fn parse(text: &str) -> (r: Result<Time, TimeError>)
        requires
            text@.len() < usize::MAX,
        ensures
            match r {
                Ok(t) => {
                    &&& fields(text@).len() == 3
                    &&& bad_field(fields(text@)) is None
                    &&& fits_i64(text_total(text@))
                    &&& t@ == text_total(text@)
                },
                Err(TimeError::Length(n)) => fields(text@).len() != 3 && n == fields(text@).len(),
                Err(TimeError::Field(tok)) => {
                    &&& fields(text@).len() == 3
                    &&& bad_field(fields(text@)) == Some(tok@)
                },
                Err(TimeError::OutOfRange) => {
                    &&& fields(text@).len() == 3
                    &&& bad_field(fields(text@)) is None
                    &&& !fits_i64(text_total(text@))
                },
            },
    {
        let cs = chars_of(text);
        let n = cs.len();
        let neg = n > 0 && cs[0] == '-';
        let off: usize = if neg {
            1
        } else {
            0
        };
        let ghost body = unsigned_part(text@);
        assert(body =~= cs@.subrange(off as int, n as int));
        let mut count: usize = 0;
        let mut c0: usize = off;
        let mut c1: usize = off;
        let mut i: usize = off;
        while i < n
            invariant
                off <= i <= n == cs.len() < usize::MAX,
                cs@ == text@,
                body == cs@.subrange(off as int, n as int),
                count <= i - off,
                split_colons(cs@.subrange(off as int, i as int)).len() == count + 1,
                count >= 1 ==> off <= c0 < i,
                count >= 2 ==> c0 < c1 < i,
                count == 0 ==> split_colons(cs@.subrange(off as int, i as int))[0]
                    == cs@.subrange(off as int, i as int),
                count >= 1 ==> split_colons(cs@.subrange(off as int, i as int))[0]
                    == cs@.subrange(off as int, c0 as int),
                count == 1 ==> split_colons(cs@.subrange(off as int, i as int))[1]
                    == cs@.subrange(c0 + 1, i as int),
                count >= 2 ==> split_colons(cs@.subrange(off as int, i as int))[1]
                    == cs@.subrange(c0 + 1, c1 as int),
                count == 2 ==> split_colons(cs@.subrange(off as int, i as int))[2]
                    == cs@.subrange(c1 + 1, i as int),
            decreases n - i,
        {
            let ghost prev = split_colons(cs@.subrange(off as int, i as int));
            let ghost next_body = cs@.subrange(off as int, i + 1);
            assert(next_body.drop_last() =~= cs@.subrange(off as int, i as int));
            assert(next_body.last() == cs@[i as int]);
            if cs[i] == ':' {
                if count == 0 {
                    c0 = i;
                } else if count == 1 {
                    c1 = i;
                }
                count = count + 1;
                proof {
                    assert(split_colons(next_body) == prev.push(Seq::empty()));
                    assert(cs@.subrange(i + 1, i + 1) =~= Seq::<char>::empty());
                }
            } else {
                proof {
                    assert(split_colons(next_body) == prev.update(
                        prev.len() - 1,
                        prev.last().push(cs@[i as int]),
                    ));
                    assert(cs@.subrange(off as int, i as int).push(cs@[i as int]) =~= cs@.subrange(
                        off as int,
                        i + 1,
                    ));
                    if count >= 1 {
                        assert(cs@.subrange(c0 + 1, i as int).push(cs@[i as int]) =~= cs@.subrange(
                            c0 + 1,
                            i + 1,
                        ));
                    }
                    if count >= 2 {
                        assert(cs@.subrange(c1 + 1, i as int).push(cs@[i as int]) =~= cs@.subrange(
                            c1 + 1,
                            i + 1,
                        ));
                    }
                }
            }
            i = i + 1;
        }
        assert(cs@.subrange(off as int, n as int) == body);
        if count != 2 {
            return Err(TimeError::Length(count + 1));
        }
        let h = match read_field(&cs, off, c0) {
            Some(v) => v,
            None => {
                return Err(TimeError::Field(String::from_str(text.substring_char(off, c0))));
            },
        };
        let m = match read_field(&cs, c0 + 1, c1) {
            Some(v) => v,
            None => {
                return Err(TimeError::Field(String::from_str(text.substring_char(c0 + 1, c1))));
            },
        };
        let s = match read_field(&cs, c1 + 1, n) {
            Some(v) => v,
            None => {
                return Err(TimeError::Field(String::from_str(text.substring_char(c1 + 1, n))));
            },
        };
        let magnitude: i128 = h as i128 * 3600 + m as i128 * 60 + s as i128;
        let total: i128 = if neg {
            -magnitude
        } else {
            magnitude
        };
        if total < i64::MIN as i128 || total > i64::MAX as i128 {
            return Err(TimeError::OutOfRange);
        }
        Ok(Time(total as i64))
    }

    /// Whole hours, rounded toward zero: the sign of the time.
    pub fn h(&self) -> (r: i64)
        ensures
            r == trunc_div(self@, 3600),
    {
        if self.0 >= 0 {
            self.0 / 3600
        } else {
            let a: i128 = -(self.0 as i128);
            -((a / 3600) as i64)
        }
    }

    /// Minutes past the whole hours, in -59..=59, with the sign of the time.
    pub fn m(&self) -> (r: i64)
        ensures
            r == trunc_rem(trunc_div(self@, 60), 60),
    {
        if self.0 >= 0 {
            self.0 / 60 % 60
        } else {
            let a: i128 = -(self.0 as i128);
            -((a / 60 % 60) as i64)
        }
    }

    /// Seconds past the whole minutes, in -59..=59, with the sign of the time.
    pub fn s(&self) -> (r: i64)
        ensures
            r == trunc_rem(self@, 60),
    {
        if self.0 >= 0 {
            self.0 % 60
        } else {
            let a: i128 = -(self.0 as i128);
            -((a % 60) as i64)
        }
    }
}

proof fn lemma_digit_char(d: nat)
    requires
        d < 10,
    ensures
        is_digit(digit_char(d)),
        digit_value(digit_char(d)) == d,
{
}

proof fn lemma_decimal(n: nat)
    ensures
        decimal(n).len() > 0,
        all_digits(decimal(n)),
        digits_value(decimal(n)) == n,
    decreases n,
{
    lemma_digit_char(n % 10);
    if n < 10 {
        assert(seq![digit_char(n)].drop_last() =~= Seq::<char>::empty());
        assert(digits_value(Seq::<char>::empty()) == 0);
        assert(digits_value(decimal(n)) == digits_value(Seq::<char>::empty()) * 10 + digit_value(
            digit_char(n),
        ));
    } else {
        lemma_decimal(n / 10);
        let d = decimal(n);
        assert(d.drop_last() =~= decimal(n / 10));
        assert(d.last() == digit_char(n % 10));
        assert(digits_value(d) == digits_value(decimal(n / 10)) * 10 + digit_value(
            digit_char(n % 10),
        ));
        assert(n == (n / 10) * 10 + n % 10);
        assert forall|i: int| 0 <= i < d.len() implies is_digit(#[trigger] d[i]) by {
            if i < d.len() - 1 {
                assert(d[i] == decimal(n / 10)[i]);
            }
        }
    }
}

proof fn lemma_padded(n: nat)
    ensures
        padded(n).len() > 0,
        all_digits(padded(n)),
        digits_value(padded(n)) == n,
{
    lemma_decimal(n);
    if n < 10 {
        lemma_digit_char(n);
        let p = padded(n);
        assert(p.drop_last() =~= seq!['0']);
        assert(seq!['0'].drop_last() =~= Seq::<char>::empty());
        assert(digits_value(Seq::<char>::empty()) == 0);
        assert(digits_value(seq!['0']) == 0);
        assert(digits_value(p) == digits_value(seq!['0']) * 10 + digit_value(digit_char(n)));
        assert(is_digit(p[0]) && is_digit(p[1]));
    }
}

proof fn lemma_split_no_colon(x: Seq<char>)
    requires
        all_digits(x),
    ensures
        split_colons(x) == seq![x],
    decreases x.len(),
{
    if x.len() > 0 {
        assert(is_digit(x[x.len() - 1]));
        assert(all_digits(x.drop_last())) by {
            assert forall|i: int| 0 <= i < x.drop_last().len() implies is_digit(
                #[trigger] x.drop_last()[i],
            ) by {
                assert(x.drop_last()[i] == x[i]);
            }
        }
        lemma_split_no_colon(x.drop_last());
        assert(x.last() != ':');
        assert(x.drop_last().push(x.last()) =~= x);
        assert(split_colons(x) =~= seq![x]);
    } else {
        assert(x =~= Seq::<char>::empty());
    }
}

proof fn lemma_split_after_colon(x: Seq<char>, y: Seq<char>)
    requires
        all_digits(y),
    ensures
        split_colons(x + seq![':'] + y) == split_colons(x).push(y),
    decreases y.len(),
{
    let s = x + seq![':'] + y;
    if y.len() == 0 {
        assert(s.drop_last() =~= x);
        assert(y =~= Seq::<char>::empty());
    } else {
        assert(is_digit(y[y.len() - 1]));
        assert(all_digits(y.drop_last())) by {
            assert forall|i: int| 0 <= i < y.drop_last().len() implies is_digit(
                #[trigger] y.drop_last()[i],
            ) by {
                assert(y.drop_last()[i] == y[i]);
            }
        }
        lemma_split_after_colon(x, y.drop_last());
        assert(s.drop_last() =~= x + seq![':'] + y.drop_last());
        assert(s.last() == y.last());
        assert(y.drop_last().push(y.last()) =~= y);
        assert(split_colons(s) =~= split_colons(x).push(y));
    }
}

proof fn lemma_hms(a: nat)
    ensures
        a == (a / 3600) * 3600 + ((a / 60) % 60) * 60 + a % 60,
        a / 3600 <= a,
{
    lemma_fundamental_div_mod(a as int, 60);
    lemma_fundamental_div_mod(a as int / 60, 60);
    lemma_div_denominator(a as int, 60, 60);
    lemma_div_is_ordered_by_denominator(a as int, 1, 3600);
}

/// Parsing the canonical text of a time gives that time back: the text has
/// three valid fields, they denote exactly the time's seconds, and no other
/// time has those seconds.
pub proof fn lemma_parse_format(t: Time)
    ensures
        fields(format_total(t@)).len() == 3,
        bad_field(fields(format_total(t@))) is None,
        fits_i64(text_total(format_total(t@))),
        text_total(format_total(t@)) == t@,
        forall|u: Time| #[trigger] u@ == t@ ==> u == t,
{
    let a = abs(t@);
    let hh = padded(a / 3600);
    let mm = padded((a / 60) % 60);
    let ss = padded(a % 60);
    lemma_padded(a / 3600);
    lemma_padded((a / 60) % 60);
    lemma_padded(a % 60);
    lemma_hms(a);
    let s = format_total(t@);
    let rest = hh + seq![':'] + mm + seq![':'] + ss;
    assert(is_digit(hh[0]));
    if t@ < 0 {
        assert(s =~= seq!['-'] + rest);
        assert(unsigned_part(s) =~= rest);
    } else {
        assert(s =~= rest);
        assert(s[0] == hh[0]);
    }
    assert(unsigned_part(s) == rest);
    lemma_split_no_colon(hh);
    lemma_split_after_colon(hh, mm);
    lemma_split_after_colon(hh + seq![':'] + mm, ss);
    assert(fields(s) =~= seq![hh, mm, ss]);
}

/// The canonical text holds one `-` at most: at its start, exactly when the
/// time is negative; every other character is a digit or a colon.
pub proof fn lemma_format_single_sign(t: Time)
    ensures
        format_total(t@).len() > 0,
        (format_total(t@)[0] == '-') <==> t@ < 0,
        forall|i: int| 1 <= i < format_total(t@).len() ==> #[trigger] format_total(t@)[i] != '-',
{
    let a = abs(t@);
    let hh = padded(a / 3600);
    let mm = padded((a / 60) % 60);
    let ss = padded(a % 60);
    lemma_padded(a / 3600);
    lemma_padded((a / 60) % 60);
    lemma_padded(a % 60);
    let s = format_total(t@);
    let rest = hh + seq![':'] + mm + seq![':'] + ss;
    assert forall|i: int| 0 <= i < rest.len() implies #[trigger] rest[i] != '-' by {
        if i < hh.len() {
            assert(rest[i] == hh[i]);
        } else if i == hh.len() {
        } else if i < hh.len() + 1 + mm.len() {
            assert(rest[i] == mm[i - hh.len() - 1]);
        } else if i == hh.len() + 1 + mm.len() {
        } else {
            assert(rest[i] == ss[i - hh.len() - 2 - mm.len()]);
        }
    }
    if t@ < 0 {
        assert(s =~= seq!['-'] + rest);
        assert forall|i: int| 1 <= i < s.len() implies #[trigger] s[i] != '-' by {
            assert(s[i] == rest[i - 1]);
        }
    } else {
        assert(s =~= rest);
    }
}

impl std::ops::Add for Time {
    type Output = Time;

    /// The sum of the two times' seconds.
    fn add(self, rhs: Time) -> (r: Time) {
        Time(self.0 + rhs.0)
    }
}

impl vstd::std_specs::ops::AddSpecImpl for Time {
    open spec fn obeys_add_spec() -> bool {
        true
    }

    open spec fn add_req(self, rhs: Time) -> bool {
        fits_i64(self@ + rhs@)
    }

    closed spec fn add_spec(self, rhs: Time) -> Time {
        Time((self@ + rhs@) as i64)
    }
}

/// Adding or subtracting times adds or subtracts their seconds, whenever the
/// result fits.
pub proof fn lemma_add_sub_seconds(a: Time, b: Time)
    ensures
        a.add_req(b) ==> a.add_spec(b)@ == a@ + b@,
        a.sub_req(b) ==> a.sub_spec(b)@ == a@ - b@,
{
}

impl std::ops::Sub for Time {
    type Output = Time;

    /// The difference of the two times' seconds.
    fn sub(self, rhs: Time) -> (r: Time) {
        Time(self.0 - rhs.0)
    }
}

impl vstd::std_specs::ops::SubSpecImpl for Time {
    open spec fn obeys_sub_spec() -> bool {
        true
    }

    open spec fn sub_req(self, rhs: Time) -> bool {
        fits_i64(self@ - rhs@)
    }

    closed spec fn sub_spec(self, rhs: Time) -> Time {
        Time((self@ - rhs@) as i64)
    }
}

} // verus!
