//! Version tags: their shape, the numbers they hold, and how a version is
//! written out.

use vstd::prelude::*;
use crate::text::{chars_of, split, split_on, lemma_split_step, lemma_split_whole};

verus! {

/// What `char::is_numeric` answers for a character beyond ASCII.
pub uninterp spec fn unicode_numeric(c: char) -> bool;

/// Whether `c` counts as numeric: among the ASCII characters the ten
/// digits do, beyond them whatever Unicode puts in a number category.
pub open spec fn numeric(c: char) -> bool {
    if (c as u32) < 128 {
        '0' <= c <= '9'
    } else {
        unicode_numeric(c)
    }
}

/// Calls `char::is_numeric`, which tells whether a character belongs to one
/// of Unicode's number categories (Nd, Nl, No). The contract claims that
/// the answer depends on the character alone, and that the only ASCII
/// characters in those categories are `0` to `9`.
#[verifier::external_body]
fn is_numeric(c: char) -> (r: bool)
    ensures
        (c as u32) < 128 ==> (r <==> '0' <= c <= '9'),
        (c as u32) >= 128 ==> r == unicode_numeric(c),
{
    c.is_numeric()
}

/// A tag is well formed when it splits at its dots into exactly three
/// components, each made of numeric characters only.
pub open spec fn well_formed_tag(s: Seq<char>) -> bool {
    let parts = split_on(s, '.');
    &&& parts.len() == 3
    &&& forall|i: int, j: int|
        0 <= i < parts.len() && 0 <= j < parts[i].len() ==> numeric(#[trigger] parts[i][j])
}

/// Every character of `s` is numeric.
pub open spec fn all_numeric(s: Seq<char>) -> bool {
    forall|j: int| 0 <= j < s.len() ==> numeric(#[trigger] s[j])
}

fn is_all_numeric(part: &str) -> (r: bool)
    ensures
        r == all_numeric(part@),
{
    let chars = chars_of(part);
    let mut j: usize = 0;
    while j < chars.len()
        invariant
            chars@ == part@,
            j <= chars.len(),
            forall|k: int| 0 <= k < j ==> numeric(#[trigger] part@[k]),
        decreases chars.len() - j,
    {
        if !is_numeric(chars[j]) {
            return false;
        }
        j += 1;
    }
    true
}

/// Tells whether `version` has the shape of a version tag.
pub fn is_version_number(version: &str) -> (r: bool)
    ensures
        r == well_formed_tag(version@),
{
    let parts = split(version, '.');
    if parts.len() != 3 {
        return false;
    }
    let ghost views = parts.deep_view();
    let mut i: usize = 0;
    while i < 3
        invariant
            parts.len() == 3,
            views == parts.deep_view(),
            views == split_on(version@, '.'),
            i <= 3,
            forall|k: int| 0 <= k < i ==> all_numeric(#[trigger] views[k]),
        decreases 3 - i,
    {
        assert(views[i as int] == parts@[i as int]@);
        if !is_all_numeric(parts[i].as_str()) {
            return false;
        }
        i += 1;
    }
    assert forall|a: int, b: int|
        0 <= a < views.len() && 0 <= b < views[a].len() implies numeric(#[trigger] views[a][b]) by {
        assert(all_numeric(views[a]));
    }
    true
}

/// Why a text is not a 32-bit decimal number.
#[derive(Clone, Copy, Debug, PartialEq, Eq, Structural)]
pub enum IntError {
    /// The text is empty.
    Empty,
    /// A character is no digit, or a sign stands alone.
    InvalidDigit,
    /// The number is above `i32::MAX`.
    PosOverflow,
    /// The number is below `i32::MIN`.
    NegOverflow,
}

/// `c` is one of `0` to `9`.
pub open spec fn is_digit(c: char) -> bool {
    '0' <= c <= '9'
}

/// The number that the digit `c` stands for.
pub open spec fn digit_value(c: char) -> int {
    c as int - '0' as int
}

/// Reading the first `k` characters of `digits` from the left as a decimal
/// number, counted below zero when `negative`: the number, or what went
/// wrong at the first character that cannot be taken in.
pub open spec fn scan(digits: Seq<char>, negative: bool, k: int) -> Result<int, IntError>
    decreases k,
{
    if k <= 0 {
        Ok(0)
    } else {
        match scan(digits, negative, k - 1) {
            Err(e) => Err(e),
            Ok(acc) => {
                let c = digits[k - 1];
                let v = if negative {
                    acc * 10 - digit_value(c)
                } else {
                    acc * 10 + digit_value(c)
                };
                if !is_digit(c) {
                    Err(IntError::InvalidDigit)
                } else if v > i32::MAX {
                    Err(IntError::PosOverflow)
                } else if v < i32::MIN {
                    Err(IntError::NegOverflow)
                } else {
                    Ok(v)
                }
            },
        }
    }
}

/// The 32-bit number that `s` writes in decimal, with an optional sign in
/// front, or why it writes none.
pub open spec fn parsed_i32(s: Seq<char>) -> Result<int, IntError> {
    if s.len() == 0 {
        Err(IntError::Empty)
    } else if s.len() == 1 && (s[0] == '+' || s[0] == '-') {
        Err(IntError::InvalidDigit)
    } else if s[0] == '+' {
        scan(s.skip(1), false, s.len() - 1)
    } else if s[0] == '-' {
        scan(s.skip(1), true, s.len() - 1)
    } else {
        scan(s, false, s.len() as int)
    }
}

/// Every character of `s` is a digit.
pub open spec fn all_digits(s: Seq<char>) -> bool {
    forall|i: int| 0 <= i < s.len() ==> is_digit(#[trigger] s[i])
}

/// The number that the digits `s` write in decimal.
pub open spec fn decimal_value(s: Seq<char>) -> int
    decreases s.len(),
{
    if s.len() == 0 {
        0
    } else {
        decimal_value(s.drop_last()) * 10 + digit_value(s.last())
    }
}

/// The digits of `s`: what follows its sign, if it has one.
pub open spec fn written_digits(s: Seq<char>) -> Seq<char> {
    if s.len() > 0 && (s[0] == '+' || s[0] == '-') {
        s.skip(1)
    } else {
        s
    }
}

/// The number that `s` writes: that of its digits, below zero after a
/// minus sign.
pub open spec fn written_value(s: Seq<char>) -> int {
    if s.len() > 0 && s[0] == '-' {
        -decimal_value(written_digits(s))
    } else {
        decimal_value(written_digits(s))
    }
}

/// The number that digits write is not below zero.
pub proof fn lemma_decimal_value_sign(s: Seq<char>)
    requires
        all_digits(s),
    ensures
        decimal_value(s) >= 0,
    decreases s.len(),
{
    if s.len() > 0 {
        assert forall|i: int| 0 <= i < s.drop_last().len() implies is_digit(
            #[trigger] s.drop_last()[i],
        ) by {
            assert(s.drop_last()[i] == s[i]);
        }
        lemma_decimal_value_sign(s.drop_last());
        assert(is_digit(s[s.len() - 1]));
    }
}

/// What a scan of the first `k` characters gives: it succeeds exactly
/// where they are digits whose number fits in 32 bits, and then gives
/// that number.
pub proof fn lemma_scan_value(digits: Seq<char>, negative: bool, k: int)
    requires
        0 <= k <= digits.len(),
    ensures
        scan(digits, negative, k) is Ok <==> all_digits(digits.take(k)) && (if negative {
            decimal_value(digits.take(k)) <= 2147483648
        } else {
            decimal_value(digits.take(k)) <= 2147483647
        }),
        scan(digits, negative, k) matches Ok(v) ==> v == (if negative {
            -decimal_value(digits.take(k))
        } else {
            decimal_value(digits.take(k))
        }),
    decreases k,
{
    let read = digits.take(k);
    if k > 0 {
        let before = digits.take(k - 1);
        lemma_scan_value(digits, negative, k - 1);
        assert(read.drop_last() =~= before);
        assert(read.last() == digits[k - 1]);
        if all_digits(read) {
            assert forall|i: int| 0 <= i < before.len() implies is_digit(#[trigger] before[i]) by {
                assert(before[i] == read[i]);
            }
            lemma_decimal_value_sign(before);
            assert(is_digit(read[k - 1]));
        }
        if all_digits(before) && is_digit(digits[k - 1]) {
            assert forall|i: int| 0 <= i < read.len() implies is_digit(#[trigger] read[i]) by {
                if i < k - 1 {
                    assert(read[i] == before[i]);
                }
            }
            lemma_decimal_value_sign(before);
        }
    }
}

/// A text reads as a 32-bit number exactly when it is one or more
/// digits, with or without a sign in front, and the number that they
/// write fits; it then reads as that number.
pub proof fn lemma_parsed_i32(s: Seq<char>)
    ensures
        parsed_i32(s) is Ok <==> written_digits(s).len() > 0 && all_digits(written_digits(s))
            && i32::MIN <= written_value(s) <= i32::MAX,
        parsed_i32(s) matches Ok(v) ==> v == written_value(s),
{
    let digits = written_digits(s);
    let negative = s.len() > 0 && s[0] == '-';
    lemma_scan_value(digits, negative, digits.len() as int);
    assert(digits.take(digits.len() as int) =~= digits);
    if all_digits(digits) {
        lemma_decimal_value_sign(digits);
    }
    if s.len() > 0 && s[0] != '+' && s[0] != '-' {
        assert(s.skip(0) =~= s);
    }
}

/// Once a scan has failed, reading further changes nothing.
pub proof fn lemma_scan_error_stays(digits: Seq<char>, negative: bool, k: int, m: int)
    requires
        k <= m,
        scan(digits, negative, k) is Err,
    ensures
        scan(digits, negative, m) == scan(digits, negative, k),
    decreases m,
{
    if k < m {
        lemma_scan_error_stays(digits, negative, k, m - 1);
    }
}

/// Reads `s` as a decimal 32-bit number.
pub fn parse_i32(s: &str) -> (r: Result<i32, IntError>)
    ensures
        match parsed_i32(s@) {
            Ok(v) => r == Ok::<i32, IntError>(v as i32) && i32::MIN <= v <= i32::MAX,
            Err(e) => r == Err::<i32, IntError>(e),
        },
{
    let chars = chars_of(s);
    let n: usize = chars.len();
    if n == 0 {
        return Err(IntError::Empty);
    }
    let first = chars[0];
    if n == 1 && (first == '+' || first == '-') {
        return Err(IntError::InvalidDigit);
    }
    let negative = first == '-';
    let start: usize = if first == '+' || first == '-' { 1 } else { 0 };
    let ghost body = s@.skip(start as int);
    assert(s@.skip(0) =~= s@);
    assert(parsed_i32(s@) == scan(body, negative, n - start));
    let mut acc: i64 = 0;
    let mut i: usize = start;
    while i < n
        invariant
            chars@ == s@,
            n == chars.len(),
            start <= i <= n,
            body == s@.skip(start as int),
            scan(body, negative, i - start) == Ok::<int, IntError>(acc as int),
            parsed_i32(s@) == scan(body, negative, n - start),
            i32::MIN <= acc <= i32::MAX,
        decreases n - i,
    {
        let c = chars[i];
        assert(body[i - start] == c);
        proof {
            if scan(body, negative, i - start + 1) is Err {
                lemma_scan_error_stays(body, negative, i - start + 1, n - start);
            }
        }
        if !(c >= '0' && c <= '9') {
            return Err(IntError::InvalidDigit);
        }
        let d: i64 = (c as u32 - 48) as i64;
        let v: i64 = if negative { acc * 10 - d } else { acc * 10 + d };
        if v > 2147483647 {
            return Err(IntError::PosOverflow);
        }
        if v < -2147483648 {
            return Err(IntError::NegOverflow);
        }
        acc = v;
        i += 1;
    }
    Ok(acc as i32)
}

/// A version: three numbers.
#[derive(Clone, Copy, Debug, PartialEq, Eq, Structural)]
pub struct Version {
    pub major: i32,
    pub minor: i32,
    pub patch: i32,
}

/// Why a text holds no version.
#[derive(Clone, Copy, Debug, PartialEq, Eq, Structural)]
pub enum VersionError {
    /// The text has fewer than three components.
    Malformed,
    /// The first component is no number.
    Major(IntError),
    /// The second component is no number.
    Minor(IntError),
    /// The third component is no number.
    Patch(IntError),
}

impl IntError {
    /// What is said of the failure.
    pub open spec fn text(self) -> Seq<char> {
        match self {
            IntError::Empty => "cannot parse integer from empty string"@,
            IntError::InvalidDigit => "invalid digit found in string"@,
            IntError::PosOverflow => "number too large to fit in target type"@,
            IntError::NegOverflow => "number too small to fit in target type"@,
        }
    }

    /// What is said of the failure.
    pub fn message(&self) -> (r: &'static str)
        ensures
            r@ == self.text(),
    {
        match self {
            IntError::Empty => "cannot parse integer from empty string",
            IntError::InvalidDigit => "invalid digit found in string",
            IntError::PosOverflow => "number too large to fit in target type",
            IntError::NegOverflow => "number too small to fit in target type",
        }
    }
}

impl VersionError {
    /// What is said of the failure: which value could not be read, and
    /// why.
    pub open spec fn text(self) -> Seq<char> {
        match self {
            VersionError::Malformed => "Version does not have a major, a minor and a patch value."@,
            VersionError::Major(cause) => "Major value could not be parsed as an int.("@
                + cause.text() + ")"@,
            VersionError::Minor(cause) => "Minor value could not be parsed as an int.("@
                + cause.text() + ")"@,
            VersionError::Patch(cause) => "Patch value could not be parsed as an int. ("@
                + cause.text() + ")"@,
        }
    }

    /// What is said of the failure.
    pub fn message(&self) -> (r: String)
        ensures
            r@ == self.text(),
    {
        match self {
            VersionError::Malformed => {
                "Version does not have a major, a minor and a patch value.".to_string()
            },
            VersionError::Major(cause) => {
                let mut r = "Major value could not be parsed as an int.(".to_string();
                r.append(cause.message());
                r.append(")");
                r
            },
            VersionError::Minor(cause) => {
                let mut r = "Minor value could not be parsed as an int.(".to_string();
                r.append(cause.message());
                r.append(")");
                r
            },
            VersionError::Patch(cause) => {
                let mut r = "Patch value could not be parsed as an int. (".to_string();
                r.append(cause.message());
                r.append(")");
                r
            },
        }
    }
}

/// The version that `s` holds: its first three components between dots,
/// each read as a number. Components after the third are not read.
pub open spec fn parsed_version(s: Seq<char>) -> Result<Version, VersionError> {
    let parts = split_on(s, '.');
    if parts.len() < 3 {
        Err(VersionError::Malformed)
    } else {
        match parsed_i32(parts[0]) {
            Err(e) => Err(VersionError::Major(e)),
            Ok(major) => match parsed_i32(parts[1]) {
                Err(e) => Err(VersionError::Minor(e)),
                Ok(minor) => match parsed_i32(parts[2]) {
                    Err(e) => Err(VersionError::Patch(e)),
                    Ok(patch) => Ok(
                        Version { major: major as i32, minor: minor as i32, patch: patch as i32 },
                    ),
                },
            },
        }
    }
}

/// Reads the three numbers of `version`.
pub fn parse_version(version: &str) -> (r: Result<Version, VersionError>)
    ensures
        r == parsed_version(version@),
{
    let parts = split(version, '.');
    if parts.len() < 3 {
        return Err(VersionError::Malformed);
    }
    let ghost views = parts.deep_view();
    assert(views[0] == parts@[0]@ && views[1] == parts@[1]@ && views[2] == parts@[2]@);
    let major = match parse_i32(parts[0].as_str()) {
        Ok(n) => n,
        Err(e) => {
            return Err(VersionError::Major(e));
        },
    };
    let minor = match parse_i32(parts[1].as_str()) {
        Ok(n) => n,
        Err(e) => {
            return Err(VersionError::Minor(e));
        },
    };
    let patch = match parse_i32(parts[2].as_str()) {
        Ok(n) => n,
        Err(e) => {
            return Err(VersionError::Patch(e));
        },
    };
    Ok(Version { major, minor, patch })
}

/// The ten digits, in order.
pub open spec fn digit_chars() -> Seq<char> {
    seq!['0', '1', '2', '3', '4', '5', '6', '7', '8', '9']
}

/// The decimal digits of `n`, most significant first.
pub open spec fn decimal(n: nat) -> Seq<char>
    decreases n,
{
    if n < 10 {
        seq![digit_chars()[n as int]]
    } else {
        decimal(n / 10).push(digit_chars()[(n % 10) as int])
    }
}

/// `i` written in decimal, with a minus sign in front when it is below zero.
pub open spec fn rendered_int(i: int) -> Seq<char> {
    if i < 0 {
        seq!['-'] + decimal((-i) as nat)
    } else {
        decimal(i as nat)
    }
}

impl Version {
    /// The tag of this version: its three numbers with dots between them.
    pub open spec fn rendered(self) -> Seq<char> {
        rendered_int(self.major as int).push('.') + (rendered_int(self.minor as int).push('.')
            + rendered_int(self.patch as int))
    }

    /// Writes the version as a tag.
    pub fn render(&self) -> (r: String)
        ensures
            r@ == self.rendered(),
    {
        let mut r = render_i32(self.major);
        let minor = render_i32(self.minor);
        let patch = render_i32(self.patch);
        proof {
            reveal_strlit(".");
            assert("."@ =~= seq!['.']);
        }
        r.append(".");
        r.append(minor.as_str());
        r.append(".");
        r.append(patch.as_str());
        assert(r@ =~= self.rendered());
        r
    }
}

fn digit_text(d: u32) -> (r: &'static str)
    requires
        d < 10,
    ensures
        r@ == seq![digit_chars()[d as int]],
{
    proof {
        reveal_strlit("0");
        reveal_strlit("1");
        reveal_strlit("2");
        reveal_strlit("3");
        reveal_strlit("4");
        reveal_strlit("5");
        reveal_strlit("6");
        reveal_strlit("7");
        reveal_strlit("8");
        reveal_strlit("9");
    }
    let r = if d == 0 {
        "0"
    } else if d == 1 {
        "1"
    } else if d == 2 {
        "2"
    } else if d == 3 {
        "3"
    } else if d == 4 {
        "4"
    } else if d == 5 {
        "5"
    } else if d == 6 {
        "6"
    } else if d == 7 {
        "7"
    } else if d == 8 {
        "8"
    } else {
        "9"
    };
    assert(r@ =~= seq![digit_chars()[d as int]]);
    r
}

fn render_u32(n: u32) -> (r: String)
    ensures
        r@ == decimal(n as nat),
    decreases n,
{
    if n < 10 {
        digit_text(n).to_string()
    } else {
        let mut r = render_u32(n / 10);
        r.append(digit_text(n % 10));
        assert(r@ =~= decimal(n as nat));
        r
    }
}

/// Writes `n` in decimal.
pub fn render_i32(n: i32) -> (r: String)
    ensures
        r@ == rendered_int(n as int),
{
    if n < 0 {
        let magnitude: u32 = (-(n as i64)) as u32;
        let digits = render_u32(magnitude);
        proof {
            reveal_strlit("-");
            assert("-"@ =~= seq!['-']);
        }
        let mut r = "-".to_string();
        r.append(digits.as_str());
        r
    } else {
        render_u32(n as u32)
    }
}

/// The digits of a number are digits, and there is at least one.
pub proof fn lemma_decimal_digits(n: nat)
    ensures
        decimal(n).len() >= 1,
        forall|i: int| 0 <= i < decimal(n).len() ==> is_digit(#[trigger] decimal(n)[i]),
    decreases n,
{
    if n >= 10 {
        lemma_decimal_digits(n / 10);
    }
}

/// What a scan makes of its first `k` characters does not depend on the
/// characters after them.
pub proof fn lemma_scan_prefix(digits: Seq<char>, c: char, negative: bool, k: int)
    requires
        k <= digits.len(),
    ensures
        scan(digits.push(c), negative, k) == scan(digits, negative, k),
    decreases k,
{
    if k > 0 {
        lemma_scan_prefix(digits, c, negative, k - 1);
        assert(digits.push(c)[k - 1] == digits[k - 1]);
    }
}

/// Scanning the digits of a number that fits gives the number back.
pub proof fn lemma_scan_decimal(n: nat, negative: bool)
    requires
        if negative {
            n <= 2147483648
        } else {
            n <= 2147483647
        },
    ensures
        scan(decimal(n), negative, decimal(n).len() as int) == Ok::<int, IntError>(
            if negative {
                -(n as int)
            } else {
                n as int
            },
        ),
    decreases n,
{
    let d = digit_chars()[(n % 10) as int];
    assert(is_digit(d) && digit_value(d) == n % 10);
    if n < 10 {
        assert(decimal(n) =~= seq![d]);
        assert(scan(decimal(n), negative, 0) == Ok::<int, IntError>(0));
    } else {
        let head = decimal(n / 10);
        lemma_scan_decimal(n / 10, negative);
        lemma_scan_prefix(head, d, negative, head.len() as int);
        assert(decimal(n) == head.push(d));
        assert(decimal(n)[head.len() as int] == d);
    }
}

/// A 32-bit number that is written out reads back as itself.
pub proof fn lemma_parse_rendered_int(i: int)
    requires
        i32::MIN <= i <= i32::MAX,
    ensures
        parsed_i32(rendered_int(i)) == Ok::<int, IntError>(i),
        forall|k: int|
            0 <= k < rendered_int(i).len() ==> #[trigger] rendered_int(i)[k] != '.',
        i >= 0 ==> all_numeric(rendered_int(i)),
        i < 0 ==> rendered_int(i)[0] == '-',
{
    if i < 0 {
        let m = (-i) as nat;
        lemma_decimal_digits(m);
        lemma_scan_decimal(m, true);
        let s = rendered_int(i);
        assert(s.skip(1) =~= decimal(m));
        assert forall|k: int| 0 <= k < s.len() implies #[trigger] s[k] != '.' by {
            if k > 0 {
                assert(s[k] == decimal(m)[k - 1]);
            }
        }
    } else {
        let m = i as nat;
        lemma_decimal_digits(m);
        lemma_scan_decimal(m, false);
        assert(is_digit(decimal(m)[0]));
    }
}

/// A version that is written as a tag and read again is the same version,
/// and the tag is well formed exactly when none of the three numbers is
/// below zero.
pub proof fn lemma_render_then_parse(v: Version)
    ensures
        parsed_version(v.rendered()) == Ok::<Version, VersionError>(v),
        well_formed_tag(v.rendered()) <==> (v.major >= 0 && v.minor >= 0 && v.patch >= 0),
{
    let a = rendered_int(v.major as int);
    let b = rendered_int(v.minor as int);
    let c = rendered_int(v.patch as int);
    lemma_parse_rendered_int(v.major as int);
    lemma_parse_rendered_int(v.minor as int);
    lemma_parse_rendered_int(v.patch as int);
    lemma_split_whole(c, '.');
    lemma_split_step(b, '.', c);
    lemma_split_step(a, '.', b.push('.') + c);
    let parts = split_on(v.rendered(), '.');
    assert(parts =~= seq![a, b, c]);
    if v.major >= 0 && v.minor >= 0 && v.patch >= 0 {
        assert forall|i: int, j: int|
            0 <= i < parts.len() && 0 <= j < parts[i].len() implies numeric(
            #[trigger] parts[i][j],
        ) by {
            assert(all_numeric(parts[i]));
        }
    } else {
        let i = if v.major < 0 {
            0
        } else if v.minor < 0 {
            1int
        } else {
            2
        };
        assert(parts[i][0] == '-');
        assert(!numeric(parts[i][0]));
    }
}

} // verus!
