//! Render options: the sample count and the image size, and the `WxH` text
//! form of a size.
use vstd::prelude::*;
use vstd::string::*;

verus! {

/// Character of a decimal digit `d < 10`.
pub open spec fn digit_char(d: nat) -> char {
    if d == 0 { '0' }
    else if d == 1 { '1' }
    else if d == 2 { '2' }
    else if d == 3 { '3' }
    else if d == 4 { '4' }
    else if d == 5 { '5' }
    else if d == 6 { '6' }
    else if d == 7 { '7' }
    else if d == 8 { '8' }
    else { '9' }
}

pub open spec fn is_digit(c: char) -> bool {
    '0' <= c && c <= '9'
}

pub open spec fn digit_value(c: char) -> nat {
    (c as int - '0' as int) as nat
}

/// Decimal text of `n`, without leading zeros.
pub open spec fn decimal(n: nat) -> Seq<char>
    decreases n,
{
    if n < 10 {
        seq![digit_char(n)]
    } else {
        decimal(n / 10).push(digit_char(n % 10))
    }
}

/// Value of a run of decimal digits, most significant first.
pub open spec fn digits_value(s: Seq<char>) -> nat
    decreases s.len(),
{
    if s.len() == 0 {
        0
    } else {
        digits_value(s.drop_last()) * 10 + digit_value(s.last())
    }
}

/// Index of the first character of `s` that is not a digit, or `s.len()`.
pub open spec fn digit_run(s: Seq<char>) -> nat
    decreases s.len(),
{
    if s.len() == 0 || !is_digit(s[0]) {
        0
    } else {
        1 + digit_run(s.drop_first())
    }
}

/// Why a size could not be read.
#[derive(Debug, Clone, Copy, PartialEq, Eq, Structural)]
pub enum SizeError {
    /// The text does not hold exactly one `x`.
    Format,
    /// One side is empty.
    Empty,
    /// One side holds a character that is not a digit.
    InvalidDigit,
    /// One side does not fit in `usize`.
    Overflow,
}

/// How one side of a size reads: an unsigned integer with an optional `+`,
/// scanned left to right, so the first of a bad character and an overflow
/// decides the error.
pub open spec fn side_spec(s: Seq<char>) -> Result<nat, SizeError> {
    if s.len() == 0 {
        Err(SizeError::Empty)
    } else {
        let body = if s[0] == '+' { s.drop_first() } else { s };
        let k = digit_run(body);
        if body.len() == 0 {
            Err(SizeError::InvalidDigit)
        } else if digits_value(body.subrange(0, k as int)) > usize::MAX {
            Err(SizeError::Overflow)
        } else if k < body.len() {
            Err(SizeError::InvalidDigit)
        } else {
            Ok(digits_value(body))
        }
    }
}

/// Number of `x` characters in `s`.
pub open spec fn count_x(s: Seq<char>) -> nat
    decreases s.len(),
{
    if s.len() == 0 {
        0
    } else {
        count_x(s.drop_last()) + if s.last() == 'x' { 1nat } else { 0nat }
    }
}

/// Index of the last `x` in `s`, or -1 when there is none.
pub open spec fn last_x(s: Seq<char>) -> int
    decreases s.len(),
{
    if s.len() == 0 {
        -1
    } else if s.last() == 'x' {
        s.len() - 1
    } else {
        last_x(s.drop_last())
    }
}

/// An image size in pixels: width, then height.
#[derive(Debug, Clone, Copy, PartialEq, Eq, Structural)]
pub struct Size2(pub usize, pub usize);

/// What `WxH` text reads as: exactly one `x`, and a valid side on each side of it.
pub open spec fn size_spec(s: Seq<char>) -> Result<Size2, SizeError> {
    if count_x(s) != 1 {
        Err(SizeError::Format)
    } else {
        let i = last_x(s);
        match side_spec(s.subrange(0, i)) {
            Err(e) => Err(e),
            Ok(w) => match side_spec(s.subrange(i + 1, s.len() as int)) {
                Err(e) => Err(e),
                Ok(h) => Ok(Size2(w as usize, h as usize)),
            },
        }
    }
}

proof fn lemma_digit_run(s: Seq<char>, j: int)
    requires
        0 <= j <= s.len(),
        forall|t: int| 0 <= t < j ==> is_digit(#[trigger] s[t]),
        j == s.len() || !is_digit(s[j]),
    ensures
        digit_run(s) == j,
    decreases j,
{
    if j > 0 {
        lemma_digit_run(s.drop_first(), j - 1);
    }
}

proof fn lemma_value_step(s: Seq<char>, i: int)
    requires
        0 <= i < s.len(),
    ensures
        digits_value(s.subrange(0, i + 1)) == digits_value(s.subrange(0, i)) * 10 + digit_value(s[i]),
{
    assert(s.subrange(0, i + 1).drop_last() =~= s.subrange(0, i));
}

proof fn lemma_value_mono(s: Seq<char>, a: int, b: int)
    requires
        0 <= a <= b <= s.len(),
    ensures
        digits_value(s.subrange(0, a)) <= digits_value(s.subrange(0, b)),
    decreases b - a,
{
    if a < b {
        lemma_value_mono(s, a, b - 1);
        lemma_value_step(s, b - 1);
    }
}

proof fn lemma_count_x_bound(s: Seq<char>)
    ensures
        count_x(s) <= s.len(),
        -1 <= last_x(s) < s.len(),
        last_x(s) >= 0 ==> s[last_x(s)] == 'x',
    decreases s.len(),
{
    if s.len() > 0 {
        lemma_count_x_bound(s.drop_last());
    }
}

/// Reads one side of a size from the characters `lo..hi` of `s`.
fn parse_side(s: &str, lo: usize, hi: usize) -> (r: Result<usize, SizeError>)
    requires
        lo <= hi <= s@.len(),
    ensures
        r == (match side_spec(s@.subrange(lo as int, hi as int)) {
            Ok(v) => Ok(v as usize),
            Err(e) => Err(e),
        }),
{
    let ghost whole = s@.subrange(lo as int, hi as int);
    if lo == hi {
        return Err(SizeError::Empty);
    }
    let mut start: usize = lo;
    if s.get_char(lo) == '+' {
        start = lo + 1;
    }
    let ghost body = s@.subrange(start as int, hi as int);
    assert(body =~= (if whole[0] == '+' { whole.drop_first() } else { whole }));
    if start == hi {
        return Err(SizeError::InvalidDigit);
    }
    let mut acc: usize = 0;
    let mut i: usize = start;
    while i < hi
        invariant
            lo <= start <= i <= hi <= s@.len(),
            lo < hi,
            whole == s@.subrange(lo as int, hi as int),
            body == (if whole[0] == '+' { whole.drop_first() } else { whole }),
            body == s@.subrange(start as int, hi as int),
            forall|t: int| 0 <= t < i - start ==> is_digit(#[trigger] body[t]),
            acc == digits_value(body.subrange(0, i - start)),
        decreases hi - i,
    {
        let c = s.get_char(i);
        assert(c == body[i - start]);
        if !('0' <= c && c <= '9') {
            proof {
                lemma_digit_run(body, i - start);
                assert(body.subrange(0, i - start) =~= body.subrange(0, digit_run(body) as int));
            }
            return Err(SizeError::InvalidDigit);
        }
        let d: usize = (c as u32 - '0' as u32) as usize;
        proof {
            lemma_value_step(body, i - start);
        }
        if acc > (usize::MAX - d) / 10 {
            proof {
                assert(acc * 10 + d > usize::MAX) by (nonlinear_arith)
                    requires acc > (usize::MAX - d) / 10, d <= 9;
                let k = digit_run(body) as int;
                lemma_digit_run_bound(body, i - start + 1);
                lemma_value_mono(body, i - start + 1, k);
            }
            return Err(SizeError::Overflow);
        }
        assert(acc * 10 + d <= usize::MAX) by (nonlinear_arith)
            requires acc <= (usize::MAX - d) / 10, d <= 9;
        acc = acc * 10 + d;
        i = i + 1;
    }
    proof {
        lemma_digit_run(body, body.len() as int);
        assert(body.subrange(0, body.len() as int) =~= body);
    }
    Ok(acc)
}

impl Size2 {
    /// Reads `WxH` text, such as `10x10`.
    pub fn parse(s: &str) -> (r: Result<Size2, SizeError>)
        ensures
            r == size_spec(s@),
    {
        let n = s.unicode_len();
        let mut count: usize = 0;
        let mut pos: usize = 0;
        let mut i: usize = 0;
        while i < n
            invariant
                i <= n,
                n == s@.len(),
                count == count_x(s@.subrange(0, i as int)),
                count > 0 ==> pos == last_x(s@.subrange(0, i as int)),
            decreases n - i,
        {
            proof {
                assert(s@.subrange(0, i + 1).drop_last() =~= s@.subrange(0, i as int));
                lemma_count_x_bound(s@.subrange(0, i as int));
            }
            if s.get_char(i) == 'x' {
                count = count + 1;
                pos = i;
            }
            i = i + 1;
        }
        assert(s@.subrange(0, n as int) =~= s@);
        if count != 1 {
            return Err(SizeError::Format);
        }
        proof {
            lemma_count_x_bound(s@);
        }
        let w = match parse_side(s, 0, pos) {
            Ok(w) => w,
            Err(e) => return Err(e),
        };
        let h = match parse_side(s, pos + 1, n) {
            Ok(h) => h,
            Err(e) => return Err(e),
        };
        Ok(Size2(w, h))
    }

    /// The `WxH` text of the size.
    pub fn to_text(&self) -> (r: String)
        ensures
            r@ == decimal(self.0 as nat) + seq!['x'] + decimal(self.1 as nat),
    {
        let mut out = String::new();
        push_decimal(&mut out, self.0);
        let x = "x";
        proof {
            reveal_strlit("x");
        }
        out.append(x);
        push_decimal(&mut out, self.1);
        out
    }
}

impl core::str::FromStr for Size2 {
    type Err = String;

    fn from_str(s: &str) -> (r: Result<Size2, String>)
        ensures
            size_spec(s@) is Ok <==> r is Ok,
            r matches Ok(v) ==> size_spec(s@) == Ok::<Size2, SizeError>(v),
            r matches Err(m) ==> size_spec(s@) matches Err(e) && m@ == e.message_spec()@,
    {
        match Size2::parse(s) {
            Ok(v) => Ok(v),
            Err(e) => Err(e.message()),
        }
    }
}

impl SizeError {
    /// The message shown to a user for this error.
    pub fn message(&self) -> (r: String)
        ensures
            r@ == self.message_spec()@,
    {
        String::from_str(self.message_text())
    }

    pub open spec fn message_spec(&self) -> &'static str {
        match self {
            SizeError::Format => "invalid Size2 format",
            SizeError::Empty => "cannot parse integer from empty string",
            SizeError::InvalidDigit => "invalid digit found in string",
            SizeError::Overflow => "number too large to fit in target type",
        }
    }

    fn message_text(&self) -> (r: &'static str)
        ensures
            r == self.message_spec(),
    {
        match self {
            SizeError::Format => "invalid Size2 format",
            SizeError::Empty => "cannot parse integer from empty string",
            SizeError::InvalidDigit => "invalid digit found in string",
            SizeError::Overflow => "number too large to fit in target type",
        }
    }
}

/// The text of the digit `d`.
fn digit_text(d: usize) -> (r: &'static str)
    requires
        d < 10,
    ensures
        r@ == seq![digit_char(d as nat)],
{
    proof {
        reveal_strlit("0");
        reveal_strlit("1");
        reveal_strlit("2");
        reveal_strlit("3");
        reveal_strlit("4");
        reveal_strlit("5");
        reveal_strlit("6");
        reveal_strlit("7");
        reveal_strlit("8");
        reveal_strlit("9");
    }
    if d == 0 { "0" }
    else if d == 1 { "1" }
    else if d == 2 { "2" }
    else if d == 3 { "3" }
    else if d == 4 { "4" }
    else if d == 5 { "5" }
    else if d == 6 { "6" }
    else if d == 7 { "7" }
    else if d == 8 { "8" }
    else { "9" }
}

/// Appends the decimal text of `n` to `out`.
pub(crate) fn push_decimal(out: &mut String, n: usize)
    ensures
        final(out)@ == old(out)@ + decimal(n as nat),
    decreases n,
{
    if n >= 10 {
        push_decimal(out, n / 10);
    }
    out.append(digit_text(n % 10));
    proof {
        if n >= 10 {
            assert(old(out)@ + decimal(n as nat) =~= old(out)@ + decimal((n / 10) as nat) + seq![digit_char((n % 10) as nat)]);
        } else {
            assert(n % 10 == n);
        }
    }
}

/// The sample counts that have a sub-pixel pattern.
pub open spec fn valid_sample_count(n: int) -> bool {
    n == 1 || n == 2 || n == 4 || n == 8
}

/// A render configuration that is not supported.
#[derive(Debug, Clone, Copy, PartialEq, Eq, Structural)]
pub enum ConfigError {
    /// The sample count is not one of 1, 2, 4 and 8.
    UnsupportedSamples,
    /// The image has no pixels: its width or its height is zero.
    EmptyImage,
}

/// Render options: samples per pixel and the image size.
#[derive(Debug, Clone, Copy)]
pub struct Options {
    multi: i32,
    size: Size2,
}

impl Options {
    #[verifier::type_invariant]
    spec fn inv(self) -> bool {
        valid_sample_count(self.multi as int) && self.size.0 > 0 && self.size.1 > 0
    }

    pub closed spec fn spec_width(self) -> usize {
        self.size.0
    }

    pub closed spec fn spec_height(self) -> usize {
        self.size.1
    }

    pub closed spec fn spec_samples(self) -> i32 {
        self.multi
    }

    /// Options from the values given on the command line. A sample count
    /// without a pattern is refused first, then an image without pixels.
    pub fn from_args(multi: i32, size: Size2) -> (r: Result<Options, ConfigError>)
        ensures
            r is Ok <==> valid_sample_count(multi as int) && size.0 > 0 && size.1 > 0,
            !valid_sample_count(multi as int) ==> r == Err::<Options, ConfigError>(ConfigError::UnsupportedSamples),
            valid_sample_count(multi as int) && (size.0 == 0 || size.1 == 0) ==> r == Err::<Options, ConfigError>(
                ConfigError::EmptyImage,
            ),
            r matches Ok(o) ==> o.spec_samples() == multi && o.spec_width() == size.0 && o.spec_height() == size.1,
    {
        if !(multi == 1 || multi == 2 || multi == 4 || multi == 8) {
            Err(ConfigError::UnsupportedSamples)
        } else if size.0 == 0 || size.1 == 0 {
            Err(ConfigError::EmptyImage)
        } else {
            Ok(Options { multi, size })
        }
    }

    pub fn width(&self) -> (r: usize)
        ensures
            r == self.spec_width(),
            r > 0,
    {
        proof {
            use_type_invariant(self);
        }
        self.size.0
    }

    pub fn height(&self) -> (r: usize)
        ensures
            r == self.spec_height(),
            r > 0,
    {
        proof {
            use_type_invariant(self);
        }
        self.size.1
    }

    pub fn samples(&self) -> (r: i32)
        ensures
            r == self.spec_samples(),
            valid_sample_count(r as int),
    {
        proof {
            use_type_invariant(self);
        }
        self.multi
    }
}

proof fn lemma_decimal(n: nat)
    ensures
        decimal(n).len() >= 1,
        forall|i: int| 0 <= i < decimal(n).len() ==> is_digit(#[trigger] decimal(n)[i]),
        digits_value(decimal(n)) == n,
        count_x(decimal(n)) == 0,
        last_x(decimal(n)) == -1,
    decreases n,
{
    let d = (n % 10) as nat;
    assert(digit_value(digit_char(d)) == d && is_digit(digit_char(d)) && digit_char(d) != 'x');
    let s = decimal(n);
    if n < 10 {
        assert(d == n);
        assert(s == seq![digit_char(n)]);
        assert(s.drop_last() =~= Seq::<char>::empty());
        assert(digits_value(s) == digits_value(s.drop_last()) * 10 + digit_value(s.last()));
        assert(count_x(s) == count_x(s.drop_last()) + 0);
        assert(last_x(s) == last_x(s.drop_last()));
    } else {
        lemma_decimal(n / 10);
        assert(s == decimal(n / 10).push(digit_char(d)));
        assert(s.drop_last() =~= decimal(n / 10));
        assert(s.last() == digit_char(d));
        assert(digits_value(s) == digits_value(decimal(n / 10)) * 10 + d);
        assert(n == (n / 10) * 10 + d);
        assert(last_x(s) == last_x(s.drop_last()));
    }
}

proof fn lemma_count_x_concat(a: Seq<char>, b: Seq<char>)
    ensures
        count_x(a + b) == count_x(a) + count_x(b),
        last_x(b) == -1 ==> last_x(a + b) == last_x(a),
        last_x(b) >= 0 ==> last_x(a + b) == a.len() + last_x(b),
    decreases b.len(),
{
    if b.len() == 0 {
        assert(a + b =~= a);
    } else {
        lemma_count_x_concat(a, b.drop_last());
        assert((a + b).drop_last() =~= a + b.drop_last());
    }
}

proof fn lemma_side_decimal(n: nat)
    requires
        n <= usize::MAX,
    ensures
        side_spec(decimal(n)) == Ok::<nat, SizeError>(n),
{
    let s = decimal(n);
    lemma_decimal(n);
    assert(is_digit(s[0]));
    assert(s[0] != '+');
    lemma_digit_run(s, s.len() as int);
    assert(s.subrange(0, s.len() as int) =~= s);
}

/// The text of a size reads back as that size.
pub proof fn lemma_size_text_round_trip(size: Size2)
    ensures
        size_spec(decimal(size.0 as nat) + seq!['x'] + decimal(size.1 as nat)) == Ok::<Size2, SizeError>(size),
{
    let a = decimal(size.0 as nat);
    let b = decimal(size.1 as nat);
    let s = a + seq!['x'] + b;
    lemma_decimal(size.0 as nat);
    lemma_decimal(size.1 as nat);
    assert(count_x(seq!['x']) == 1 && last_x(seq!['x']) == 0) by {
        let t = seq!['x'];
        assert(t.drop_last() =~= Seq::<char>::empty());
        assert(t.last() == 'x');
        assert(count_x(t) == count_x(t.drop_last()) + 1);
    }
    lemma_count_x_concat(a, seq!['x']);
    lemma_count_x_concat(a + seq!['x'], b);
    assert(last_x(s) == a.len());
    assert(s.subrange(0, a.len() as int) =~= a);
    assert(s.subrange(a.len() + 1int, s.len() as int) =~= b);
    lemma_side_decimal(size.0 as nat);
    lemma_side_decimal(size.1 as nat);
}

/// A run of digits at the front of `s` lies within its digit run.
proof fn lemma_digit_run_bound(s: Seq<char>, j: int)
    requires
        0 <= j <= s.len(),
        forall|t: int| 0 <= t < j ==> is_digit(#[trigger] s[t]),
    ensures
        j <= digit_run(s) <= s.len(),
    decreases j,
{
    if j > 0 {
        lemma_digit_run_bound(s.drop_first(), j - 1);
        assert forall|t: int| 0 <= t < j - 1 implies is_digit(#[trigger] s.drop_first()[t]) by {
            assert(is_digit(s[t + 1]));
        }
    } else if s.len() > 0 {
        lemma_digit_run_le(s);
    }
}

proof fn lemma_digit_run_le(s: Seq<char>)
    ensures
        digit_run(s) <= s.len(),
    decreases s.len(),
{
    if s.len() > 0 {
        lemma_digit_run_le(s.drop_first());
    }
}

} // verus!
