//! The cursor parser.
//!
//! One line of text after the `add` keyword is consumed left to right by a
//! mutable cursor: each recognition step chews a matched prefix and any run
//! of ASCII whitespace after it, and a failed match leaves the cursor
//! unchanged. The grammar is
//!
//! ```text
//! entry       := sign shape_kind point shape_body
//! sign        := '+' | '-'
//! shape_kind  := "circle" | "quad" | "tri"        (matched as a prefix)
//! point       := '(' float [','] float ')'
//! float       := ['-'] digits ['.' digits]
//! circle_body := float       (the whole trimmed remainder, one token)
//! quad_body   := float float (trailing text ignored)
//! tri_body    := point point (trailing text ignored)
//! ```
//!
//! `spec_parse` is the grammar written out as a function of the input
//! characters; `parse_add` is proved to return exactly that. No partial
//! entity escapes a failure: each failure is one `ParseError`, and its
//! message names the grammar violation. A numeric literal whose mantissa or
//! scale leaves the `i64` range is outside the exact model and is rejected
//! like a malformed number.

use crate::frac::Frac;
use crate::geometry::{Entity, Point, Shape};
use vstd::prelude::*;
use vstd::string::StrSliceExecFns;

verus! {

/// ASCII whitespace: space, tab, line feed, form feed, carriage return.
pub open spec fn is_space(c: char) -> bool {
    c == ' ' || c == '\t' || c == '\n' || c == '\x0c' || c == '\r'
}

/// ASCII decimal digit.
pub open spec fn is_digit(c: char) -> bool {
    48 <= c as u32 <= 57
}

/// The numeric value of a digit character.
pub open spec fn digit_val(c: char) -> int {
    c as u32 - 48
}

/// Does `p` occur at the start of `s`?
pub open spec fn starts_with(s: Seq<char>, p: Seq<char>) -> bool {
    p.len() <= s.len() && s.take(p.len() as int) == p
}

/// `s` without its leading run of whitespace.
pub open spec fn trim_start_spec(s: Seq<char>) -> Seq<char>
    decreases s.len(),
{
    if s.len() > 0 && is_space(s[0]) {
        trim_start_spec(s.skip(1))
    } else {
        s
    }
}

/// Is `s` whitespace only?
pub open spec fn all_spaces(s: Seq<char>) -> bool {
    forall|j: int| 0 <= j < s.len() ==> is_space(s[j])
}

/// The length of the leading run of digits of `s`.
pub open spec fn digit_run(s: Seq<char>) -> int
    decreases s.len(),
{
    if s.len() > 0 && is_digit(s[0]) {
        1 + digit_run(s.skip(1))
    } else {
        0
    }
}

/// The value of the first `n` characters of `s` read as decimal digits.
pub open spec fn digits_val(s: Seq<char>, n: int) -> int
    decreases n,
{
    if n <= 0 {
        0
    } else {
        10 * digits_val(s, n - 1) + digit_val(s[n - 1])
    }
}

pub open spec fn pow10(n: int) -> int
    decreases n,
{
    if n <= 0 {
        1
    } else {
        10 * pow10(n - 1)
    }
}

/// A numeric token `digits ['.' digits]` at the start of `t` (sign already
/// removed): does a fraction part follow the integer digits?
pub open spec fn has_frac_part(t: Seq<char>) -> bool {
    let d = digit_run(t);
    d + 1 < t.len() && t[d] == '.' && is_digit(t[d + 1])
}

/// The number of digits after the decimal point.
pub open spec fn frac_len(t: Seq<char>) -> int {
    if has_frac_part(t) {
        digit_run(t.skip(digit_run(t) + 1))
    } else {
        0
    }
}

/// The number of characters the token occupies at the start of `t`.
pub open spec fn token_len(t: Seq<char>) -> int {
    if has_frac_part(t) {
        digit_run(t) + 1 + frac_len(t)
    } else {
        digit_run(t)
    }
}

/// The token's digits with the decimal point removed.
pub open spec fn token_digits(t: Seq<char>) -> Seq<char> {
    if has_frac_part(t) {
        t.take(digit_run(t)) + t.skip(digit_run(t) + 1).take(frac_len(t))
    } else {
        t.take(digit_run(t))
    }
}

/// The token's value scaled to an integer: its digits read in order.
pub open spec fn mantissa(t: Seq<char>) -> int {
    digits_val(token_digits(t), token_digits(t).len() as int)
}

/// Does `s` start with the one optional minus sign? No whitespace is
/// allowed between the sign and the digits.
pub open spec fn scan_neg(s: Seq<char>) -> bool {
    s.len() > 0 && s[0] == '-'
}

/// `s` with the optional sign removed.
pub open spec fn scan_body(s: Seq<char>) -> Seq<char> {
    if scan_neg(s) {
        s.skip(1)
    } else {
        s
    }
}

/// Does a float token start `s`, with mantissa and scale inside the exact
/// model's `i64` range?
pub open spec fn scan_ok(s: Seq<char>) -> bool {
    let t = scan_body(s);
    digit_run(t) >= 1 && mantissa(t) <= i64::MAX && pow10(frac_len(t)) <= i64::MAX
}

/// The scanned value: `+/- mantissa / 10^frac_len`.
pub open spec fn scan_value(s: Seq<char>) -> Frac {
    let t = scan_body(s);
    Frac {
        num: (if scan_neg(s) {
            -mantissa(t)
        } else {
            mantissa(t)
        }) as i64,
        den: pow10(frac_len(t)) as i64,
    }
}

/// What is left after the token and the whitespace that follows it.
pub open spec fn scan_rest(s: Seq<char>) -> Seq<char> {
    trim_start_spec(scan_body(s).skip(token_len(scan_body(s))))
}

/// The strict form used for a circle's diameter: the token must be the
/// only thing left on the line.
pub open spec fn strict_number_ok(s: Seq<char>) -> bool {
    scan_ok(s) && all_spaces(scan_body(s).skip(token_len(scan_body(s))))
}

/// One parse failure; `message` gives its user-facing text.
#[derive(Clone, Copy, Debug, PartialEq, Eq, Structural)]
pub enum ParseError {
    NoSign,
    UnknownShape,
    ExpectedPoint,
    XNotANumber,
    YNotANumber,
    ClosePoint,
    DiameterNotANumber,
    WidthNotANumber,
    HeightNotANumber,
}

impl ParseError {
    /// The exact message for each grammar violation.
    pub fn message(&self) -> (r: &'static str)
        ensures
            *self is NoSign ==> r@ == "no sign"@,
            *self is UnknownShape ==> r@ == "what shape?"@,
            *self is ExpectedPoint ==> r@ == "expected point '('"@,
            *self is XNotANumber ==> r@ == "X is not a number"@,
            *self is YNotANumber ==> r@ == "Y is not a number"@,
            *self is ClosePoint ==> r@ == "close point pls"@,
            *self is DiameterNotANumber ==> r@ == "diameter is not a num"@,
            *self is WidthNotANumber ==> r@ == "width is not a num"@,
            *self is HeightNotANumber ==> r@ == "height is not a num"@,
    {
        match self {
            ParseError::NoSign => "no sign",
            ParseError::UnknownShape => "what shape?",
            ParseError::ExpectedPoint => "expected point '('",
            ParseError::XNotANumber => "X is not a number",
            ParseError::YNotANumber => "Y is not a number",
            ParseError::ClosePoint => "close point pls",
            ParseError::DiameterNotANumber => "diameter is not a num",
            ParseError::WidthNotANumber => "width is not a num",
            ParseError::HeightNotANumber => "height is not a num",
        }
    }
}

/// `point := '(' float [','] float ')'`, returning the point and what is
/// left after the closing parenthesis and its trailing whitespace.
pub open spec fn spec_read_point(s: Seq<char>) -> Result<(Point, Seq<char>), ParseError> {
    if !starts_with(s, "("@) {
        Err(ParseError::ExpectedPoint)
    } else {
        let s1 = trim_start_spec(s.skip("("@.len() as int));
        if !scan_ok(s1) {
            Err(ParseError::XNotANumber)
        } else {
            let x = scan_value(s1);
            let s2 = scan_rest(s1);
            let s3 = if starts_with(s2, ","@) {
                trim_start_spec(s2.skip(","@.len() as int))
            } else {
                s2
            };
            if !scan_ok(s3) {
                Err(ParseError::YNotANumber)
            } else {
                let y = scan_value(s3);
                let s4 = scan_rest(s3);
                if !starts_with(s4, ")"@) {
                    Err(ParseError::ClosePoint)
                } else {
                    Ok((Point { x, y }, trim_start_spec(s4.skip(")"@.len() as int))))
                }
            }
        }
    }
}

/// After `sign "circle"`: a location point, then the diameter as the whole
/// trimmed remainder of the line.
pub open spec fn spec_parse_circle(s: Seq<char>, is_gap: bool) -> Result<Entity, ParseError> {
    match spec_read_point(s) {
        Err(e) => Err(e),
        Ok(pr) => if strict_number_ok(pr.1) {
            Ok(
                Entity {
                    location: pr.0,
                    shape: Shape::Circle { diameter: scan_value(pr.1) },
                    is_gap,
                },
            )
        } else {
            Err(ParseError::DiameterNotANumber)
        },
    }
}

/// After `sign "quad"`: a corner point, then width and height; trailing
/// text is ignored.
pub open spec fn spec_parse_quad(s: Seq<char>, is_gap: bool) -> Result<Entity, ParseError> {
    match spec_read_point(s) {
        Err(e) => Err(e),
        Ok(pr) => if !scan_ok(pr.1) {
            Err(ParseError::WidthNotANumber)
        } else {
            let width = scan_value(pr.1);
            let s2 = scan_rest(pr.1);
            if !scan_ok(s2) {
                Err(ParseError::HeightNotANumber)
            } else {
                Ok(
                    Entity {
                        location: pr.0,
                        shape: Shape::Rectangle { width, height: scan_value(s2) },
                        is_gap,
                    },
                )
            }
        },
    }
}

/// After `sign "tri"`: vertex 1, then the two delta points; trailing text
/// is ignored.
pub open spec fn spec_parse_tri(s: Seq<char>, is_gap: bool) -> Result<Entity, ParseError> {
    match spec_read_point(s) {
        Err(e) => Err(e),
        Ok(p1) => match spec_read_point(p1.1) {
            Err(e) => Err(e),
            Ok(p2) => match spec_read_point(p2.1) {
                Err(e) => Err(e),
                Ok(p3) => Ok(
                    Entity {
                        location: p1.0,
                        shape: Shape::Triangle { delta2: p2.0, delta3: p3.0 },
                        is_gap,
                    },
                ),
            },
        },
    }
}

/// The whole grammar: what `parse_add` returns for any input line.
pub open spec fn spec_parse(input: Seq<char>) -> Result<Entity, ParseError> {
    let s0 = trim_start_spec(input);
    if !(starts_with(s0, "+"@) || starts_with(s0, "-"@)) {
        Err(ParseError::NoSign)
    } else {
        let is_gap = !starts_with(s0, "+"@);
        let s1 = if starts_with(s0, "+"@) {
            trim_start_spec(s0.skip("+"@.len() as int))
        } else {
            trim_start_spec(s0.skip("-"@.len() as int))
        };
        if starts_with(s1, "circle"@) {
            spec_parse_circle(trim_start_spec(s1.skip("circle"@.len() as int)), is_gap)
        } else if starts_with(s1, "quad"@) {
            spec_parse_quad(trim_start_spec(s1.skip("quad"@.len() as int)), is_gap)
        } else if starts_with(s1, "tri"@) {
            spec_parse_tri(trim_start_spec(s1.skip("tri"@.len() as int)), is_gap)
        } else {
            Err(ParseError::UnknownShape)
        }
    }
}

// --- facts about the spec functions ---

/// The leading digit run: its length is bounded, its characters are
/// digits, and it is maximal.
pub proof fn lemma_digit_run(s: Seq<char>)
    ensures
        0 <= digit_run(s) <= s.len(),
        forall|j: int| 0 <= j < digit_run(s) ==> is_digit(s[j]),
        digit_run(s) < s.len() ==> !is_digit(s[digit_run(s)]),
    decreases s.len(),
{
    if s.len() > 0 && is_digit(s[0]) {
        lemma_digit_run(s.skip(1));
        assert forall|j: int| 0 <= j < digit_run(s) implies is_digit(s[j]) by {
            if j > 0 {
                assert(s.skip(1)[j - 1] == s[j]);
            }
        }
        if digit_run(s) < s.len() {
            assert(s.skip(1)[digit_run(s) - 1] == s[digit_run(s)]);
        }
    }
}

/// The value of a digit prefix is never negative.
pub proof fn lemma_digits_val_nonneg(s: Seq<char>, n: int)
    requires
        forall|j: int| 0 <= j < n ==> is_digit(s[j]),
    ensures
        digits_val(s, n) >= 0,
    decreases n,
{
    if n > 0 {
        lemma_digits_val_nonneg(s, n - 1);
    }
}

/// Reading more digits never makes the value smaller.
pub proof fn lemma_digits_val_mono(s: Seq<char>, m: int, n: int)
    requires
        0 <= m <= n,
        forall|j: int| 0 <= j < n ==> is_digit(s[j]),
    ensures
        digits_val(s, m) <= digits_val(s, n),
    decreases n - m,
{
    if m < n {
        lemma_digits_val_mono(s, m, n - 1);
        lemma_digits_val_nonneg(s, n - 1);
    }
}

/// The value of a digit prefix depends only on those characters.
pub proof fn lemma_digits_val_congruent(s1: Seq<char>, s2: Seq<char>, n: int)
    requires
        forall|j: int| 0 <= j < n ==> s1[j] == s2[j],
    ensures
        digits_val(s1, n) == digits_val(s2, n),
    decreases n,
{
    if n > 0 {
        lemma_digits_val_congruent(s1, s2, n - 1);
    }
}

pub proof fn lemma_pow10_pos(n: int)
    ensures
        pow10(n) >= 1,
    decreases n,
{
    if n > 0 {
        lemma_pow10_pos(n - 1);
    }
}

// --- the cursor ---

/// The mutable cursor over one line. `remaining()` is what is left to
/// consume.
pub struct Addfn {
    buf: Vec<char>,
    pos: usize,
}

impl Addfn {
    pub closed spec fn wf(self) -> bool {
        self.pos <= self.buf@.len()
    }

    pub closed spec fn remaining(self) -> Seq<char> {
        self.buf@.skip(self.pos as int)
    }

    pub fn new(input: Vec<char>) -> (r: Addfn)
        ensures
            r.wf(),
            r.remaining() == input@,
    {
        let r = Addfn { buf: input, pos: 0 };
        proof {
            assert(r.buf@.skip(0) =~= r.buf@);
        }
        r
    }

    /// What is left, as owned characters.
    pub fn rest(&self) -> (r: Vec<char>)
        requires
            self.wf(),
        ensures
            r@ == self.remaining(),
    {
        let mut v: Vec<char> = Vec::new();
        let mut i: usize = self.pos;
        while i < self.buf.len()
            invariant
                self.pos <= i <= self.buf@.len(),
                v@ == self.buf@.subrange(self.pos as int, i as int),
            decreases self.buf@.len() - i,
        {
            let c = self.buf[i];
            v.push(c);
            proof {
                assert(v@ =~= self.buf@.subrange(self.pos as int, i + 1 as int));
            }
            i += 1;
        }
        proof {
            assert(self.buf@.subrange(self.pos as int, self.buf@.len() as int) =~= self.remaining());
        }
        v
    }

    /// The character `off` places ahead, if there is one.
    fn peek(&self, off: usize) -> (r: Option<char>)
        requires
            self.wf(),
        ensures
            off < self.remaining().len() ==> (r matches Some(c) && c == self.remaining()[off as int]),
            off >= self.remaining().len() ==> r is None,
    {
        if off < self.buf.len() - self.pos {
            Some(self.buf[self.pos + off])
        } else {
            None
        }
    }

    /// Move the cursor `k` characters forward.
    fn advance(&mut self, k: usize)
        requires
            old(self).wf(),
            k <= old(self).remaining().len(),
        ensures
            final(self).wf(),
            final(self).remaining() == old(self).remaining().skip(k as int),
    {
        let total = self.buf.len();
        proof {
            assert(self.pos + k <= total);
        }
        self.pos = self.pos + k;
        proof {
            assert(self.buf@.skip(self.pos as int) =~= old(self).remaining().skip(k as int));
        }
    }

    /// Chew the leading run of whitespace.
    pub fn skip_spaces(&mut self)
        requires
            old(self).wf(),
        ensures
            final(self).wf(),
            final(self).remaining() == trim_start_spec(old(self).remaining()),
    {
        let mut done = false;
        while !done
            invariant
                self.wf(),
                trim_start_spec(self.remaining()) == trim_start_spec(old(self).remaining()),
                done ==> self.remaining().len() == 0 || !is_space(self.remaining()[0]),
            decreases self.buf@.len() - self.pos, (if done { 0int } else { 1int }),
        {
            if self.pos < self.buf.len() {
                let c = self.buf[self.pos];
                proof {
                    assert(self.remaining()[0] == c);
                }
                if is_space_char(c) {
                    proof {
                        assert(self.remaining().skip(1) =~= self.buf@.skip(self.pos + 1 as int));
                    }
                    self.pos = self.pos + 1;
                } else {
                    done = true;
                }
            } else {
                done = true;
            }
        }
    }

    /// Chew `pat` if it starts the remaining text; a failed match leaves
    /// the cursor unchanged. No whitespace is chewed afterwards.
    pub fn chew_start_if_notrim(&mut self, pat: &str) -> (r: bool)
        requires
            old(self).wf(),
        ensures
            final(self).wf(),
            starts_with(old(self).remaining(), pat@) ==> r && final(self).remaining() == old(
                self,
            ).remaining().skip(pat@.len() as int),
            !starts_with(old(self).remaining(), pat@) ==> !r && *final(self) == *old(self),
    {
        let n = pat.unicode_len();
        if n > self.buf.len() - self.pos {
            return false;
        }
        let mut i: usize = 0;
        while i < n
            invariant
                self == old(self),
                self.wf(),
                i <= n,
                n == pat@.len(),
                n <= self.remaining().len(),
                forall|j: int| 0 <= j < i ==> self.remaining()[j] == pat@[j],
            decreases n - i,
        {
            let c = self.buf[self.pos + i];
            proof {
                assert(self.remaining()[i as int] == c);
            }
            let p = pat.get_char(i);
            if c != p {
                proof {
                    assert(old(self).remaining().take(n as int)[i as int] != pat@[i as int]);
                }
                return false;
            }
            i += 1;
        }
        proof {
            assert(old(self).remaining().take(n as int) =~= pat@);
        }
        self.advance(n);
        true
    }

    /// Chew `pat` and the whitespace after it; a failed match leaves the
    /// cursor unchanged.
    pub fn chew_start_if(&mut self, pat: &str) -> (r: bool)
        requires
            old(self).wf(),
        ensures
            final(self).wf(),
            starts_with(old(self).remaining(), pat@) ==> r && final(self).remaining()
                == trim_start_spec(old(self).remaining().skip(pat@.len() as int)),
            !starts_with(old(self).remaining(), pat@) ==> !r && *final(self) == *old(self),
    {
        let r = self.chew_start_if_notrim(pat);
        if r {
            self.skip_spaces();
        }
        r
    }

    /// Scan the token `digits ['.' digits]` at the cursor. On success the
    /// token is consumed and its value returned as `mantissa / 10^scale`;
    /// on failure (no digits, or a value outside the exact model) the
    /// cursor is unchanged.
    fn scan_number_body(&mut self) -> (r: Result<Frac, ()>)
        requires
            old(self).wf(),
        ensures
            final(self).wf(),
            ({
                let t = old(self).remaining();
                let ok = digit_run(t) >= 1 && mantissa(t) <= i64::MAX && pow10(frac_len(t))
                    <= i64::MAX;
                &&& (ok ==> (r matches Ok(f) && f.num == mantissa(t) && f.den == pow10(
                    frac_len(t),
                ) && f.num >= 0 && f.wf() && final(self).remaining() == t.skip(token_len(t))))
                &&& (!ok ==> r is Err && *final(self) == *old(self))
            }),
    {
        let ghost t = self.remaining();
        let blen = self.buf.len();
        proof {
            lemma_digit_run(t);
            assert(t.len() <= blen);
        }
        let mut idx: usize = 0;
        let mut acc: i64 = 0;
        let mut ovf = false;
        let mut done = false;
        while !done
            invariant
                0 <= idx <= digit_run(t),
                acc >= 0,
                !ovf ==> acc == digits_val(t, idx as int),
                ovf ==> digits_val(t, idx as int) > i64::MAX,
                done ==> idx == digit_run(t),
            decreases t.len() - idx, (if done { 0int } else { 1int }),
        {
            let next = self.peek(idx);
            match next {
                Some(c) => {
                    proof {
                        assert(c == t[idx as int]);
                    }
                    if !is_digit_char(c) {
                        proof {
                            if idx < digit_run(t) {
                                assert(is_digit(t[idx as int]));
                            }
                        }
                        done = true;
                    } else {
                        proof {
                            if idx == digit_run(t) {
                                assert(digit_run(t) < t.len());
                                assert(!is_digit(t[idx as int]));
                            }
                            assert(idx < digit_run(t));
                            lemma_digits_val_nonneg(t, idx as int);
                            assert(digits_val(t, idx + 1 as int) == 10 * digits_val(t, idx as int)
                                + digit_val(t[idx as int]));
                        }
                        let dv: i64 = digit_of(c);
                        if !ovf {
                            match acc.checked_mul(10) {
                                Some(a10) => match a10.checked_add(dv) {
                                    Some(a) => {
                                        acc = a;
                                    },
                                    None => {
                                        ovf = true;
                                    },
                                },
                                None => {
                                    ovf = true;
                                },
                            }
                        }
                        idx += 1;
                    }
                },
                None => {
                    proof {
                        assert(idx >= t.len());
                    }
                    done = true;
                },
            }
        }
        let ghost d = digit_run(t);
        if idx == 0 {
            return Err(());
        }
        // is there a fraction part?
        let frac = match self.peek(idx) {
            Some(c) => if c == '.' {
                match self.peek(idx + 1) {
                    Some(c2) => is_digit_char(c2),
                    None => false,
                }
            } else {
                false
            },
            None => false,
        };
        proof {
            assert(frac == has_frac_part(t));
            assert(token_digits(t).len() == d + frac_len(t)) by {
                if has_frac_part(t) {
                    lemma_digit_run(t.skip(d + 1));
                }
            }
            assert forall|j: int| 0 <= j < d implies token_digits(t)[j] == t[j] by {}
            lemma_digits_val_congruent(token_digits(t), t, d);
        }
        if frac {
            let ghost u = t.skip(d + 1);
            proof {
                lemma_digit_run(u);
                assert(frac_len(t) == digit_run(u));
            }
            let mut j: usize = 0;
            let mut den: i64 = 1;
            let mut fin = false;
            while !fin
                invariant
                    0 <= j <= digit_run(u),
                    acc >= 0,
                    den >= 1,
                    !ovf ==> acc == digits_val(token_digits(t), d + j) && den == pow10(j as int),
                    ovf ==> digits_val(token_digits(t), d + j) > i64::MAX || pow10(j as int)
                        > i64::MAX,
                    fin ==> j == digit_run(u),
                decreases u.len() - j, (if fin { 0int } else { 1int }),
            {
                let next = self.peek(idx + 1 + j);
                proof {
                    if d + 1 + j < t.len() {
                        assert(t[d + 1 + j] == u[j as int]);
                    }
                }
                match next {
                    Some(c) => {
                        proof {
                            assert(c == t[d + 1 + j]);
                            assert(c == u[j as int]);
                        }
                        if !is_digit_char(c) {
                            proof {
                                if j < digit_run(u) {
                                    assert(is_digit(u[j as int]));
                                }
                            }
                            fin = true;
                        } else {
                            proof {
                                if j == digit_run(u) {
                                    assert(digit_run(u) < u.len());
                                    assert(!is_digit(u[j as int]));
                                }
                                assert(j < digit_run(u));
                                assert(token_digits(t)[d + j] == u.take(frac_len(t))[j as int]);
                                assert(token_digits(t)[d + j] == u[j as int]);
                                lemma_digits_val_nonneg_token(t, d + j);
                                lemma_pow10_pos(j as int);
                                assert(digits_val(token_digits(t), d + j + 1) == 10 * digits_val(
                                    token_digits(t),
                                    d + j,
                                ) + digit_val(token_digits(t)[d + j]));
                                assert(pow10(j + 1 as int) == 10 * pow10(j as int));
                            }
                            let dv: i64 = digit_of(c);
                            if !ovf {
                                let step_num = acc.checked_mul(10);
                                let step_den = den.checked_mul(10);
                                match (step_num, step_den) {
                                    (Some(a10), Some(d10)) => match a10.checked_add(dv) {
                                        Some(a) => {
                                            acc = a;
                                            den = d10;
                                        },
                                        None => {
                                            ovf = true;
                                        },
                                    },
                                    _ => {
                                        ovf = true;
                                    },
                                }
                            }
                            j += 1;
                        }
                    },
                    None => {
                        proof {
                            assert(d + 1 + j >= t.len());
                        }
                        fin = true;
                    },
                }
            }
            proof {
                assert(j == frac_len(t));
            }
            if ovf {
                proof {
                    lemma_overflow_means_not_ok(t);
                }
                return Err(());
            }
            let end = idx + 1 + j;
            proof {
                assert(end == token_len(t));
                assert(token_len(t) <= t.len());
            }
            self.advance(end);
            proof {
                assert(mantissa(t) == acc);
                assert(pow10(frac_len(t)) == den);
            }
            return Ok(Frac { num: acc, den });
        }
        // no fraction part: the token is the digit run alone
        if ovf {
            proof {
                lemma_overflow_means_not_ok_int(t);
            }
            return Err(());
        }
        self.advance(idx);
        proof {
            assert(token_len(t) == d);
            assert(token_digits(t).len() == d);
            assert(mantissa(t) == digits_val(t, d));
            assert(frac_len(t) == 0 && pow10(0) == 1);
        }
        Ok(Frac { num: acc, den: 1 })
    }

    /// Chew `['-'] digits ['.' digits]` and any whitespace after it; on a
    /// failed scan only the sign (if present) has been consumed, and no
    /// value escapes.
    pub fn chew_float(&mut self) -> (r: Result<Frac, ()>)
        requires
            old(self).wf(),
        ensures
            final(self).wf(),
            scan_ok(old(self).remaining()) ==> (r matches Ok(v) && v == scan_value(
                old(self).remaining(),
            ) && v.wf() && final(self).remaining() == scan_rest(old(self).remaining())),
            !scan_ok(old(self).remaining()) ==> r is Err && final(self).remaining() == scan_body(
                old(self).remaining(),
            ),
    {
        let ghost s = self.remaining();
        proof {
            reveal_strlit("-");
            assert("-"@.len() == 1);
            assert("-"@[0] == '-');
            if s.len() > 0 && s[0] == '-' {
                assert(s.take(1) =~= "-"@);
            }
            if starts_with(s, "-"@) {
                assert(s.take(1)[0] == "-"@[0]);
                assert(s[0] == '-');
            }
            assert(starts_with(s, "-"@) == scan_neg(s));
        }
        let neg = self.chew_start_if_notrim("-");
        proof {
            assert(neg == scan_neg(s));
            assert(self.remaining() == scan_body(s));
        }
        match self.scan_number_body() {
            Err(()) => Err(()),
            Ok(f) => {
                let num: i64 = if neg {
                    -f.num
                } else {
                    f.num
                };
                self.skip_spaces();
                Ok(Frac { num, den: f.den })
            },
        }
    }

    /// Is the whole remaining text whitespace?
    fn rest_all_spaces(&self) -> (r: bool)
        requires
            self.wf(),
        ensures
            r == all_spaces(self.remaining()),
    {
        let mut i: usize = self.pos;
        while i < self.buf.len()
            invariant
                self.wf(),
                self.pos <= i <= self.buf@.len(),
                forall|j: int| 0 <= j < i - self.pos ==> is_space(self.remaining()[j]),
            decreases self.buf@.len() - i,
        {
            let c = self.buf[i];
            proof {
                assert(self.remaining()[i - self.pos] == c);
            }
            if !is_space_char(c) {
                return false;
            }
            i += 1;
        }
        true
    }

    /// The circle-diameter rule: the whole trimmed remainder must be one
    /// numeric token.
    fn strict_number(&mut self) -> (r: Result<Frac, ()>)
        requires
            old(self).wf(),
        ensures
            final(self).wf(),
            strict_number_ok(old(self).remaining()) ==> (r matches Ok(f) && f == scan_value(
                old(self).remaining(),
            ) && f.wf()),
            !strict_number_ok(old(self).remaining()) ==> r is Err,
    {
        let ghost s = self.remaining();
        proof {
            reveal_strlit("-");
            assert("-"@.len() == 1);
            assert("-"@[0] == '-');
            if s.len() > 0 && s[0] == '-' {
                assert(s.take(1) =~= "-"@);
            }
            if starts_with(s, "-"@) {
                assert(s.take(1)[0] == "-"@[0]);
                assert(s[0] == '-');
            }
            assert(starts_with(s, "-"@) == scan_neg(s));
        }
        let neg = self.chew_start_if_notrim("-");
        proof {
            assert(neg == scan_neg(s));
            assert(self.remaining() == scan_body(s));
        }
        match self.scan_number_body() {
            Err(()) => Err(()),
            Ok(f) => {
                if self.rest_all_spaces() {
                    let num: i64 = if neg {
                        -f.num
                    } else {
                        f.num
                    };
                    Ok(Frac { num, den: f.den })
                } else {
                    Err(())
                }
            },
        }
    }

    /// `point := '(' float [','] float ')'`.
    fn read_point(&mut self) -> (r: Result<Point, ParseError>)
        requires
            old(self).wf(),
        ensures
            final(self).wf(),
            spec_read_point(old(self).remaining()) matches Ok(pr) ==> (r matches Ok(p) && p == pr.0
                && p.wf() && final(self).remaining() == pr.1),
            spec_read_point(old(self).remaining()) matches Err(e) ==> (r matches Err(e2) && e2
                == e),
    {
        if !self.chew_start_if("(") {
            return Err(ParseError::ExpectedPoint);
        }
        let x = match self.chew_float() {
            Ok(v) => v,
            Err(()) => {
                return Err(ParseError::XNotANumber);
            },
        };
        let _comma = self.chew_start_if(",");
        let y = match self.chew_float() {
            Ok(v) => v,
            Err(()) => {
                return Err(ParseError::YNotANumber);
            },
        };
        if !self.chew_start_if(")") {
            return Err(ParseError::ClosePoint);
        }
        Ok(Point { x, y })
    }
}

fn is_space_char(c: char) -> (r: bool)
    ensures
        r == is_space(c),
{
    c == ' ' || c == '\t' || c == '\n' || c == '\x0c' || c == '\r'
}

fn is_digit_char(c: char) -> (r: bool)
    ensures
        r == is_digit(c),
{
    let u = c as u32;
    48 <= u && u <= 57
}

fn digit_of(c: char) -> (r: i64)
    requires
        is_digit(c),
    ensures
        r == digit_val(c),
        0 <= r <= 9,
{
    let u = c as u32;
    (u - 48) as i64
}

/// Proof that an overflow seen while reading fraction digits means the
/// token's value is outside the exact model.
proof fn lemma_overflow_means_not_ok(t: Seq<char>)
    requires
        has_frac_part(t),
        digits_val(token_digits(t), digit_run(t) + frac_len(t)) > i64::MAX || pow10(frac_len(t))
            > i64::MAX,
    ensures
        !(digit_run(t) >= 1 && mantissa(t) <= i64::MAX && pow10(frac_len(t)) <= i64::MAX),
{
    lemma_digit_run(t);
    lemma_digit_run(t.skip(digit_run(t) + 1));
    assert(token_digits(t).len() == digit_run(t) + frac_len(t));
}

/// Proof that an overflow seen while reading the integer digits means the
/// token's value is outside the exact model.
proof fn lemma_overflow_means_not_ok_int(t: Seq<char>)
    requires
        digits_val(t, digit_run(t)) > i64::MAX,
    ensures
        !(digit_run(t) >= 1 && mantissa(t) <= i64::MAX && pow10(frac_len(t)) <= i64::MAX),
{
    let d = digit_run(t);
    lemma_digit_run(t);
    assert forall|j: int| 0 <= j < d implies token_digits(t)[j] == t[j] by {}
    lemma_digits_val_congruent(token_digits(t), t, d);
    if has_frac_part(t) {
        lemma_digit_run(t.skip(d + 1));
        assert(token_digits(t).len() == d + frac_len(t));
        lemma_token_digits_are_digits(t);
        lemma_digits_val_mono(token_digits(t), d, d + frac_len(t));
    } else {
        assert(token_digits(t).len() == d);
    }
}

/// Every character of `token_digits` is a digit.
proof fn lemma_token_digits_are_digits(t: Seq<char>)
    ensures
        forall|j: int| 0 <= j < token_digits(t).len() ==> is_digit(token_digits(t)[j]),
{
    let d = digit_run(t);
    lemma_digit_run(t);
    if has_frac_part(t) {
        let u = t.skip(d + 1);
        lemma_digit_run(u);
        assert forall|j: int| 0 <= j < token_digits(t).len() implies is_digit(
            token_digits(t)[j],
        ) by {
            if j < d {
                assert(token_digits(t)[j] == t[j]);
            } else {
                assert(token_digits(t)[j] == u[j - d]);
            }
        }
    } else {
        assert forall|j: int| 0 <= j < token_digits(t).len() implies is_digit(
            token_digits(t)[j],
        ) by {
            assert(token_digits(t)[j] == t[j]);
        }
    }
}

/// Nonnegativity of a token-digit prefix value.
proof fn lemma_digits_val_nonneg_token(t: Seq<char>, n: int)
    ensures
        n <= token_digits(t).len() ==> digits_val(token_digits(t), n) >= 0,
{
    lemma_token_digits_are_digits(t);
    if n <= token_digits(t).len() {
        lemma_digits_val_nonneg(token_digits(t), n);
    }
}

/// Turn a line of text into its characters.
fn chars_of(s: &str) -> (r: Vec<char>)
    ensures
        r@ == s@,
{
    let n = s.unicode_len();
    let mut v: Vec<char> = Vec::new();
    let mut i: usize = 0;
    while i < n
        invariant
            i <= n,
            n == s@.len(),
            v@ == s@.take(i as int),
        decreases n - i,
    {
        let c = s.get_char(i);
        v.push(c);
        proof {
            assert(v@ =~= s@.take(i + 1 as int));
        }
        i += 1;
    }
    proof {
        assert(s@.take(n as int) =~= s@);
    }
    v
}

/// Parse the text after the `add` keyword into one entity, or report the
/// first grammar violation. No partial entity is ever returned, and the
/// result is exactly `spec_parse` of the input characters.
pub fn parse_add(input: &str) -> (r: Result<Entity, ParseError>)
    ensures
        r == spec_parse(input@),
        r matches Ok(e) ==> e.wf(),
{
    let chars = chars_of(input);
    let mut work = Addfn::new(chars);
    work.skip_spaces();
    let is_gap = if work.chew_start_if("+") {
        false
    } else if work.chew_start_if("-") {
        true
    } else {
        return Err(ParseError::NoSign);
    };
    if work.chew_start_if("circle") {
        let location = match work.read_point() {
            Ok(p) => p,
            Err(e) => {
                return Err(e);
            },
        };
        match work.strict_number() {
            Ok(diameter) => Ok(Entity { location, shape: Shape::Circle { diameter }, is_gap }),
            Err(()) => Err(ParseError::DiameterNotANumber),
        }
    } else if work.chew_start_if("quad") {
        let location = match work.read_point() {
            Ok(p) => p,
            Err(e) => {
                return Err(e);
            },
        };
        let width = match work.chew_float() {
            Ok(v) => v,
            Err(()) => {
                return Err(ParseError::WidthNotANumber);
            },
        };
        let height = match work.chew_float() {
            Ok(v) => v,
            Err(()) => {
                return Err(ParseError::HeightNotANumber);
            },
        };
        Ok(Entity { location, shape: Shape::Rectangle { width, height }, is_gap })
    } else if work.chew_start_if("tri") {
        let location = match work.read_point() {
            Ok(p) => p,
            Err(e) => {
                return Err(e);
            },
        };
        let delta2 = match work.read_point() {
            Ok(p) => p,
            Err(e) => {
                return Err(e);
            },
        };
        let delta3 = match work.read_point() {
            Ok(p) => p,
            Err(e) => {
                return Err(e);
            },
        };
        Ok(Entity { location, shape: Shape::Triangle { delta2, delta3 }, is_gap })
    } else {
        Err(ParseError::UnknownShape)
    }
}

} // verus!
