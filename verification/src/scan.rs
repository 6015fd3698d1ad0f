//! Byte classes and the scanning primitives that the grammar is built from.
//!
//! Every primitive looks at the start of a byte slice and answers in one of
//! three ways: it matched a prefix, it cannot decide without more bytes, or the
//! input cannot begin the form. What each one answers is given by a spec
//! function over `Seq<u8>`.

use vstd::prelude::*;
use vstd::slice::slice_subrange;
use vstd::string::StringSliceAdditionalSpecFns;

verus! {

/// Why a parser did not match.
#[derive(Clone, Copy, Debug, PartialEq, Eq, Structural)]
pub enum GrammarError {
    /// The input is a plausible prefix of the form: more bytes are needed.
    Incomplete,
    /// The input cannot begin the form.
    Failure,
}

/// What a parser answers on an input, as a mathematical value.
pub enum Outcome<T> {
    /// The first `len` bytes were consumed and stand for `value`.
    Match { len: nat, value: T },
    Incomplete,
    Failure,
}

impl<T> Outcome<T> {
    /// A match lies in the input `s`.
    pub open spec fn within(self, s: Seq<u8>) -> bool {
        self matches Outcome::Match { len, value: _ } ==> len <= s.len()
    }

    /// A match takes at least one byte.
    pub open spec fn takes_bytes(self) -> bool {
        self matches Outcome::Match { len, value: _ } ==> len >= 1
    }
}

/// The answer `res` of an executable parser on `input` is the outcome `expect`.
pub open spec fn yields<T: View>(
    res: Result<(&[u8], T), GrammarError>,
    input: Seq<u8>,
    expect: Outcome<T::V>,
) -> bool {
    match expect {
        Outcome::Match { len, value } => {
            &&& len <= input.len()
            &&& res matches Ok((rest, v))
            &&& rest@ == input.skip(len as int)
            &&& v@ == value
        },
        Outcome::Incomplete => res matches Err(GrammarError::Incomplete),
        Outcome::Failure => res matches Err(GrammarError::Failure),
    }
}

/// The sets of bytes that the grammar tells apart.
#[derive(Clone, Copy, Debug, PartialEq, Eq, Structural)]
pub enum ByteClass {
    /// ASCII whitespace: space, tab, line feed, form feed, carriage return.
    /// It separates tokens and is trimmed from the front of a window.
    Space,
    /// Bytes of a token: anything but whitespace.
    Token,
    /// Bytes of a variable name: token bytes other than `[`.
    Name,
    /// Decimal digits.
    Digit,
    /// ASCII letters and decimal digits.
    Alnum,
    /// The characters of a wire value: `0 1 x X z Z u U w W`.
    Bit,
    /// Anything but `$`.
    Body,
}

/// ASCII whitespace: space, tab, line feed, form feed, carriage return.
pub open spec fn is_space(b: u8) -> bool {
    b == ' ' as u8 || b == '\t' as u8 || b == '\n' as u8 || b == 12u8 || b == '\r' as u8
}

impl ByteClass {
    /// Whether `b` belongs to the class.
    pub open spec fn contains(self, b: u8) -> bool {
        match self {
            ByteClass::Space => is_space(b),
            ByteClass::Token => !is_space(b),
            ByteClass::Name => !is_space(b) && b != '[' as u8,
            ByteClass::Digit => '0' as u8 <= b <= '9' as u8,
            ByteClass::Alnum => {
                ||| '0' as u8 <= b <= '9' as u8
                ||| 'a' as u8 <= b <= 'z' as u8
                ||| 'A' as u8 <= b <= 'Z' as u8
            },
            ByteClass::Bit => {
                ||| b == '0' as u8
                ||| b == '1' as u8
                ||| b == 'x' as u8
                ||| b == 'X' as u8
                ||| b == 'z' as u8
                ||| b == 'Z' as u8
                ||| b == 'u' as u8
                ||| b == 'U' as u8
                ||| b == 'w' as u8
                ||| b == 'W' as u8
            },
            ByteClass::Body => b != '$' as u8,
        }
    }

    /// Tests whether `b` belongs to the class.
    pub fn holds(self, b: u8) -> (r: bool)
        ensures
            r == self.contains(b),
    {
        let space = b == ' ' as u8 || b == '\t' as u8 || b == '\n' as u8 || b == 12 || b
            == '\r' as u8;
        match self {
            ByteClass::Space => space,
            ByteClass::Token => !space,
            ByteClass::Name => !space && b != '[' as u8,
            ByteClass::Digit => '0' as u8 <= b && b <= '9' as u8,
            ByteClass::Alnum => ('0' as u8 <= b && b <= '9' as u8) || ('a' as u8 <= b && b <= 'z' as u8)
                || ('A' as u8 <= b && b <= 'Z' as u8),
            ByteClass::Bit => b == '0' as u8 || b == '1' as u8 || b == 'x' as u8 || b == 'X' as u8
                || b == 'z' as u8 || b == 'Z' as u8 || b == 'u' as u8 || b == 'U' as u8 || b
                == 'w' as u8 || b == 'W' as u8,
            ByteClass::Body => b != '$' as u8,
        }
    }
}

/// Length of the longest prefix of `s` made of bytes of `class`.
pub open spec fn run_len(s: Seq<u8>, class: ByteClass) -> nat
    decreases s.len(),
{
    if s.len() > 0 && class.contains(s[0]) {
        1 + run_len(s.skip(1), class)
    } else {
        0
    }
}

/// `run_len` is the one position that ends a run: everything before it is in
/// the class, and it is the end of the input or a byte outside the class.
pub proof fn lemma_run_len_is(s: Seq<u8>, class: ByteClass, n: nat)
    requires
        n <= s.len(),
        forall|k: int| 0 <= k < n ==> class.contains(#[trigger] s[k]),
        n == s.len() || !class.contains(s[n as int]),
    ensures
        run_len(s, class) == n,
    decreases n,
{
    if n > 0 {
        let t = s.skip(1);
        assert forall|k: int| 0 <= k < n - 1 implies class.contains(#[trigger] t[k]) by {
            assert(t[k] == s[k + 1]);
        }
        lemma_run_len_is(t, class, (n - 1) as nat);
    }
}

/// The converse: what holds at and before `run_len`.
pub proof fn lemma_run_len_bounds(s: Seq<u8>, class: ByteClass)
    ensures
        run_len(s, class) <= s.len(),
        forall|k: int| 0 <= k < run_len(s, class) ==> class.contains(#[trigger] s[k]),
        run_len(s, class) < s.len() ==> !class.contains(s[run_len(s, class) as int]),
    decreases s.len(),
{
    if s.len() > 0 && class.contains(s[0]) {
        let t = s.skip(1);
        lemma_run_len_bounds(t, class);
        let n = run_len(s, class);
        assert forall|k: int| 0 <= k < n implies class.contains(#[trigger] s[k]) by {
            if k > 0 {
                assert(s[k] == t[k - 1]);
            }
        }
        if n < s.len() {
            assert(s[n as int] == t[n - 1]);
        }
    }
}

/// Counts the bytes of `class` at the start of `input`.
pub fn run(input: &[u8], class: ByteClass) -> (n: usize)
    ensures
        n == run_len(input@, class),
        n <= input.len(),
{
    let mut i: usize = 0;
    while i < input.len() && class.holds(input[i])
        invariant
            i <= input.len(),
            forall|k: int| 0 <= k < i ==> class.contains(#[trigger] input@[k]),
        decreases input.len() - i,
    {
        i += 1;
    }
    proof {
        lemma_run_len_is(input@, class, i as nat);
    }
    i
}

/// Splits `input` after its first `n` bytes: the rest, then the head.
pub fn split<'a>(input: &'a [u8], n: usize) -> (parts: (&'a [u8], &'a [u8]))
    requires
        n <= input.len(),
    ensures
        parts.0@ == input@.skip(n as int),
        parts.1@ == input@.take(n as int),
{
    let head = slice_subrange(input, 0, n);
    let rest = slice_subrange(input, n, input.len());
    assert(rest@ =~= input@.skip(n as int));
    assert(head@ =~= input@.take(n as int));
    (rest, head)
}

/// The outcome `o` on `w`, as it is when `ext` follows `w`: a match that
/// reached the end of `w` takes the separators at the start of `ext` too.
pub open spec fn grown<T>(o: Outcome<T>, w: Seq<u8>, ext: Seq<u8>) -> Outcome<T> {
    match o {
        Outcome::Match { len, value } => Outcome::Match {
            len: if len == w.len() {
                len + run_len(ext, ByteClass::Space)
            } else {
                len
            },
            value,
        },
        other => other,
    }
}

/// A run of `class`, possibly empty, that must be seen to end.
pub open spec fn spec_take_run0(s: Seq<u8>, class: ByteClass) -> Outcome<Seq<u8>> {
    let n = run_len(s, class);
    if n == s.len() {
        Outcome::Incomplete
    } else {
        Outcome::Match { len: n, value: s.take(n as int) }
    }
}

/// A run of `class` of at least one byte that must be seen to end.
pub open spec fn spec_take_run1(s: Seq<u8>, class: ByteClass) -> Outcome<Seq<u8>> {
    let n = run_len(s, class);
    if n == s.len() {
        Outcome::Incomplete
    } else if n == 0 {
        Outcome::Failure
    } else {
        Outcome::Match { len: n, value: s.take(n as int) }
    }
}

/// A run of separators of at least one byte; the end of the input ends it too.
pub open spec fn spec_fill_ws1(s: Seq<u8>) -> Outcome<Seq<u8>> {
    let n = run_len(s, ByteClass::Space);
    if n == 0 {
        Outcome::Failure
    } else {
        Outcome::Match { len: n, value: s.take(n as int) }
    }
}

/// One byte of `class`.
pub open spec fn spec_one_of(s: Seq<u8>, class: ByteClass) -> Outcome<u8> {
    if s.len() == 0 {
        Outcome::Incomplete
    } else if class.contains(s[0]) {
        Outcome::Match { len: 1, value: s[0] }
    } else {
        Outcome::Failure
    }
}

/// The one byte `b`.
pub open spec fn spec_byte(s: Seq<u8>, b: u8) -> Outcome<u8> {
    if s.len() == 0 {
        Outcome::Incomplete
    } else if s[0] == b {
        Outcome::Match { len: 1, value: b }
    } else {
        Outcome::Failure
    }
}

/// The literal `word`: a mismatch inside what is there fails, a proper prefix
/// of the word asks for more.
pub open spec fn spec_tag(s: Seq<u8>, word: Seq<u8>) -> Outcome<Seq<u8>> {
    if s.len() >= word.len() {
        if s.take(word.len() as int) == word {
            Outcome::Match { len: word.len(), value: word }
        } else {
            Outcome::Failure
        }
    } else if s == word.take(s.len() as int) {
        Outcome::Incomplete
    } else {
        Outcome::Failure
    }
}

/// Parses a run of `class`, possibly empty, that must be seen to end.
pub fn take_run0<'a>(input: &'a [u8], class: ByteClass) -> (res: Result<
    (&'a [u8], &'a [u8]),
    GrammarError,
>)
    ensures
        yields(res, input@, spec_take_run0(input@, class)),
{
    let n = run(input, class);
    if n == input.len() {
        Err(GrammarError::Incomplete)
    } else {
        proof {
            lemma_run_len_bounds(input@, class);
        }
        Ok(split(input, n))
    }
}

/// Parses a run of `class` of at least one byte that must be seen to end.
pub fn take_run1<'a>(input: &'a [u8], class: ByteClass) -> (res: Result<
    (&'a [u8], &'a [u8]),
    GrammarError,
>)
    ensures
        yields(res, input@, spec_take_run1(input@, class)),
{
    let n = run(input, class);
    if n == input.len() {
        Err(GrammarError::Incomplete)
    } else if n == 0 {
        Err(GrammarError::Failure)
    } else {
        Ok(split(input, n))
    }
}

/// Separators between commands: at least one, up to the end of the input if
/// nothing else follows.
pub fn fill_ws1<'a>(input: &'a [u8]) -> (res: Result<(&'a [u8], &'a [u8]), GrammarError>)
    ensures
        yields(res, input@, spec_fill_ws1(input@)),
{
    let n = run(input, ByteClass::Space);
    if n == 0 {
        Err(GrammarError::Failure)
    } else {
        proof {
            lemma_run_len_bounds(input@, ByteClass::Space);
        }
        Ok(split(input, n))
    }
}

/// Parses one byte of `class`.
pub fn one_of<'a>(input: &'a [u8], class: ByteClass) -> (res: Result<(&'a [u8], u8), GrammarError>)
    ensures
        yields(res, input@, spec_one_of(input@, class)),
{
    if input.len() == 0 {
        Err(GrammarError::Incomplete)
    } else if class.holds(input[0]) {
        Ok((split(input, 1).0, input[0]))
    } else {
        Err(GrammarError::Failure)
    }
}

/// Parses the one byte `b`.
pub fn byte<'a>(input: &'a [u8], b: u8) -> (res: Result<(&'a [u8], u8), GrammarError>)
    ensures
        yields(res, input@, spec_byte(input@, b)),
{
    if input.len() == 0 {
        Err(GrammarError::Incomplete)
    } else if input[0] == b {
        Ok((split(input, 1).0, b))
    } else {
        Err(GrammarError::Failure)
    }
}

/// Tests whether two byte strings are the same.
pub fn same_bytes(a: &[u8], b: &[u8]) -> (r: bool)
    ensures
        r == (a@ == b@),
{
    if a.len() != b.len() {
        return false;
    }
    let mut i: usize = 0;
    while i < a.len()
        invariant
            i <= a.len(),
            a.len() == b.len(),
            forall|k: int| 0 <= k < i ==> a@[k] == b@[k],
        decreases a.len() - i,
    {
        if a[i] != b[i] {
            return false;
        }
        i += 1;
    }
    assert(a@ =~= b@);
    true
}

/// Tests whether `bytes` spells `word`.
pub fn is_word(bytes: &[u8], word: &str) -> (r: bool)
    ensures
        r == (bytes@ == word.spec_bytes()),
{
    same_bytes(bytes, word.as_bytes())
}

/// Parses the literal `word`.
pub fn tag<'a>(input: &'a [u8], word: &str) -> (res: Result<(&'a [u8], &'a [u8]), GrammarError>)
    ensures
        yields(res, input@, spec_tag(input@, word.spec_bytes())),
{
    let w = word.as_bytes();
    if input.len() >= w.len() {
        let (rest, head) = split(input, w.len());
        if same_bytes(head, w) {
            Ok((rest, head))
        } else {
            Err(GrammarError::Failure)
        }
    } else {
        let (_, prefix) = split(w, input.len());
        if same_bytes(input, prefix) {
            Err(GrammarError::Incomplete)
        } else {
            Err(GrammarError::Failure)
        }
    }
}

/// The number that a string of decimal digits writes.
pub open spec fn decimal(digits: Seq<u8>) -> nat
    decreases digits.len(),
{
    if digits.len() == 0 {
        0
    } else {
        decimal(digits.drop_last()) * 10 + (digits.last() - '0' as u8) as nat
    }
}

/// All bytes of `digits` are decimal digits.
pub open spec fn all_digits(digits: Seq<u8>) -> bool {
    forall|k: int| 0 <= k < digits.len() ==> ByteClass::Digit.contains(#[trigger] digits[k])
}

/// Appending digits never makes the number smaller.
pub proof fn lemma_decimal_grows(digits: Seq<u8>, n: int)
    requires
        all_digits(digits),
        0 <= n <= digits.len(),
    ensures
        decimal(digits.take(n)) <= decimal(digits),
    decreases digits.len() - n,
{
    if n < digits.len() {
        lemma_decimal_grows(digits, n + 1);
        let longer = digits.take(n + 1);
        assert(longer.drop_last() =~= digits.take(n));
        assert(ByteClass::Digit.contains(digits[n]));
        assert(longer.last() == digits[n]);
    } else {
        assert(digits.take(n) =~= digits);
    }
}

/// Reads a string of decimal digits as a number no larger than `max`.
pub fn parse_decimal(digits: &[u8], max: u64) -> (value: Option<u64>)
    requires
        all_digits(digits@),
    ensures
        value == if decimal(digits@) <= max {
            Some(decimal(digits@) as u64)
        } else {
            None
        },
{
    let mut acc: u64 = 0;
    let mut i: usize = 0;
    assert(digits@.take(0) =~= Seq::<u8>::empty());
    while i < digits.len()
        invariant
            i <= digits.len(),
            all_digits(digits@),
            acc == decimal(digits@.take(i as int)),
            acc <= max,
        decreases digits.len() - i,
    {
        assert(ByteClass::Digit.contains(digits@[i as int]));
        let d: u64 = (digits[i] - '0' as u8) as u64;
        proof {
            let longer = digits@.take(i + 1);
            assert(longer.drop_last() =~= digits@.take(i as int));
            assert(longer.last() == digits@[i as int]);
            assert(decimal(longer) == acc * 10 + d);
            lemma_decimal_grows(digits@, i + 1);
        }
        if max < d || acc > (max - d) / 10 {
            return None;
        }
        acc = acc * 10 + d;
        i += 1;
    }
    assert(digits@.take(i as int) =~= digits@);
    Some(acc)
}

} // verus!
