//! The command line of the UF2 packaging tool:
//! `<input.bin> <output.uf2> --base <addr> --family <id>`.
//!
//! Numbers are decimal, or hexadecimal after `0x` or `0X`, read the way
//! `u32::from_str_radix` reads them: an optional `+`, then one digit or more.

use vstd::prelude::*;

verus! {

/// The value of `c` as a digit in `radix`, if it is one.
pub open spec fn digit_value(c: char, radix: nat) -> Option<nat> {
    let d: int = if '0' <= c && c <= '9' {
        c as int - '0' as int
    } else if 'a' <= c && c <= 'z' {
        c as int - 'a' as int + 10
    } else if 'A' <= c && c <= 'Z' {
        c as int - 'A' as int + 10
    } else {
        radix as int
    };
    if 0 <= d < radix {
        Some(d as nat)
    } else {
        None
    }
}

/// The value of a run of digits in `radix`, most significant first.
pub open spec fn digits_value(s: Seq<char>, radix: nat) -> Option<nat>
    decreases s.len(),
{
    if s.len() == 0 {
        Some(0)
    } else {
        match (digits_value(s.drop_last(), radix), digit_value(s.last(), radix)) {
            (Some(v), Some(d)) => Some(v * radix + d),
            _ => None,
        }
    }
}

/// What `u32::from_str_radix` gives for `s`: an optional `+`, then at least
/// one digit, with a value that fits.
pub open spec fn radix_value(s: Seq<char>, radix: nat) -> Option<u32> {
    let digits = if s.len() > 0 && s[0] == '+' { s.drop_first() } else { s };
    if digits.len() == 0 {
        None
    } else {
        match digits_value(digits, radix) {
            Some(v) => if v <= u32::MAX { Some(v as u32) } else { None },
            None => None,
        }
    }
}

/// Whether `s` starts with `0x` or `0X`.
pub open spec fn has_hex_prefix(s: Seq<char>) -> bool {
    s.len() >= 2 && s[0] == '0' && (s[1] == 'x' || s[1] == 'X')
}

/// The number `s` spells: hexadecimal after `0x` or `0X`, decimal otherwise.
pub open spec fn number_value(s: Seq<char>) -> Option<u32> {
    if has_hex_prefix(s) {
        radix_value(s.skip(2), 16)
    } else {
        radix_value(s, 10)
    }
}

/// A run that holds a character that is not a digit has no value.
proof fn lemma_bad_digit(s: Seq<char>, radix: nat, i: int)
    requires
        0 <= i < s.len(),
        digit_value(s[i], radix) is None,
    ensures
        digits_value(s, radix) is None,
    decreases s.len(),
{
    if i < s.len() - 1 {
        lemma_bad_digit(s.drop_last(), radix, i);
    }
}

/// Appending digits never makes a value smaller.
proof fn lemma_value_grows(s: Seq<char>, radix: nat, k: int)
    requires
        0 <= k <= s.len(),
        radix > 0,
        digits_value(s, radix) is Some,
    ensures
        digits_value(s.take(k), radix) is Some,
        digits_value(s.take(k), radix).unwrap() <= digits_value(s, radix).unwrap(),
    decreases s.len(),
{
    if k < s.len() {
        lemma_value_grows(s.drop_last(), radix, k);
        assert(s.drop_last().take(k) =~= s.take(k));
        let v = digits_value(s.drop_last(), radix).unwrap();
        let d = digit_value(s.last(), radix).unwrap();
        assert(v <= v * radix + d) by (nonlinear_arith)
            requires
                radix > 0,
        ;
    } else {
        assert(s.take(k) =~= s);
    }
}

/// `radix_value` of the characters of `s` from `start` on.
fn parse_radix(s: &str, start: usize, radix: u32) -> (r: Option<u32>)
    requires
        start <= s@.len(),
        2 <= radix <= 36,
    ensures
        r == radix_value(s@.skip(start as int), radix as nat),
{
    let ghost t = s@.skip(start as int);
    let len = s.unicode_len();
    let mut i = start;
    if i < len && s.get_char(i) == '+' {
        i = i + 1;
    }
    let ghost digits = if t.len() > 0 && t[0] == '+' { t.drop_first() } else { t };
    assert(digits =~= s@.skip(i as int));
    if i == len {
        return None;
    }
    let first = i;
    let mut v: u64 = 0;
    while i < len
        invariant
            first <= i <= len,
            len == s@.len(),
            2 <= radix <= 36,
            digits =~= s@.skip(first as int),
            t == s@.skip(start as int),
            digits == (if t.len() > 0 && t[0] == '+' { t.drop_first() } else { t }),
            digits.len() > 0,
            v <= u32::MAX,
            digits_value(digits.take(i - first), radix as nat) == Some(v as nat),
        decreases len - i,
    {
        let c = s.get_char(i);
        let ghost k = i - first;
        assert(digits[k] == c);
        assert(digits.take(k + 1).drop_last() =~= digits.take(k));
        assert(digits.take(k + 1).last() == c);
        let d: u32 = if '0' <= c && c <= '9' {
            (c as u32) - ('0' as u32)
        } else if 'a' <= c && c <= 'z' {
            (c as u32) - ('a' as u32) + 10
        } else if 'A' <= c && c <= 'Z' {
            (c as u32) - ('A' as u32) + 10
        } else {
            radix
        };
        if d >= radix {
            assert(digit_value(c, radix as nat) is None);
            proof {
                lemma_bad_digit(digits, radix as nat, k);
            }
            return None;
        }
        assert(digit_value(c, radix as nat) == Some(d as nat));
        assert(v * radix + d <= 36 * 0xFFFF_FFFF + 36) by (nonlinear_arith)
            requires
                v <= 0xFFFF_FFFF,
                radix <= 36,
                d < radix,
        ;
        let next = v * (radix as u64) + (d as u64);
        assert(next == v * radix + d);
        if next > 0xFFFF_FFFF {
            proof {
                if digits_value(digits, radix as nat) is Some {
                    lemma_value_grows(digits, radix as nat, k + 1);
                }
            }
            return None;
        }
        v = next;
        i = i + 1;
    }
    assert(digits.take(i - first) =~= digits);
    Some(v as u32)
}

/// `s` as a number: hexadecimal after `0x` or `0X`, decimal otherwise.
pub fn parse_u32(s: &str) -> (r: Option<u32>)
    ensures
        r == number_value(s@),
{
    let len = s.unicode_len();
    if len >= 2 && s.get_char(0) == '0' && (s.get_char(1) == 'x' || s.get_char(1) == 'X') {
        parse_radix(s, 2, 16)
    } else {
        assert(s@.skip(0) =~= s@);
        parse_radix(s, 0, 10)
    }
}

/// The character of digit `d` (below 16), in upper or lower case.
pub open spec fn digit_char(d: nat, upper: bool) -> char {
    if d < 10 {
        (('0' as int) + d) as char
    } else if upper {
        (('A' as int) + d - 10) as char
    } else {
        (('a' as int) + d - 10) as char
    }
}

/// `n` written in `radix`, most significant digit first, with no leading
/// zeros: what `{}`, `{:x}` and `{:X}` print.
pub open spec fn render(n: nat, radix: nat, upper: bool) -> Seq<char>
    recommends
        2 <= radix <= 16,
    decreases n,
{
    if n < radix || radix < 2 {
        seq![digit_char(n, upper)]
    } else {
        proof {
            vstd::arithmetic::div_mod::lemma_div_decreases(n as int, radix as int);
        }
        render(n / radix, radix, upper).push(digit_char(n % radix, upper))
    }
}

/// `k` zero digits.
pub open spec fn zero_digits(k: nat) -> Seq<char> {
    Seq::new(k, |i: int| '0')
}

proof fn lemma_digit_char(d: nat, radix: nat, upper: bool)
    requires
        2 <= radix <= 16,
        d < radix,
    ensures
        digit_value(digit_char(d, upper), radix) == Some(d),
        digit_char(d, upper) != '+',
        digit_char(d, upper) != 'x',
        digit_char(d, upper) != 'X',
{
}

proof fn lemma_render(n: nat, radix: nat, upper: bool)
    requires
        2 <= radix <= 16,
    ensures
        digits_value(render(n, radix, upper), radix) == Some(n),
        render(n, radix, upper).len() > 0,
        forall|i: int| 0 <= i < render(n, radix, upper).len() ==> #[trigger] render(n, radix, upper)[i] != 'x'
            && render(n, radix, upper)[i] != 'X' && render(n, radix, upper)[i] != '+',
    decreases n,
{
    if n < radix {
        lemma_digit_char(n, radix, upper);
        let r = render(n, radix, upper);
        assert(r.drop_last() =~= Seq::<char>::empty());
        assert(digits_value(r.drop_last(), radix) == Some(0nat));
        assert(r.last() == digit_char(n, upper));
        assert(0 * radix + n == n);
        assert(digits_value(r, radix) == Some(n));
    } else {
        lemma_render(n / radix, radix, upper);
        lemma_digit_char(n % radix, radix, upper);
        let r = render(n, radix, upper);
        assert(r.drop_last() == render(n / radix, radix, upper));
        vstd::arithmetic::div_mod::lemma_fundamental_div_mod(n as int, radix as int);
        vstd::arithmetic::mul::lemma_mul_is_commutative(radix as int, (n / radix) as int);
        assert(r.last() == digit_char(n % radix, upper));
        assert(forall|i: int| 0 <= i < r.len() - 1 ==> r[i] == render(n / radix, radix, upper)[i]);
        assert(digits_value(r, radix) == Some((n / radix) * radix + n % radix));
    }
}

proof fn lemma_leading_zeros(k: nat, s: Seq<char>, radix: nat)
    requires
        2 <= radix,
    ensures
        digits_value(zero_digits(k) + s, radix) == digits_value(s, radix),
    decreases s.len(), k,
{
    if s.len() == 0 {
        assert(zero_digits(k) + s =~= zero_digits(k));
        if k > 0 {
            assert(zero_digits(k).drop_last() =~= zero_digits((k - 1) as nat));
            lemma_leading_zeros((k - 1) as nat, s, radix);
            assert(zero_digits((k - 1) as nat) + s =~= zero_digits((k - 1) as nat));
            assert(zero_digits(k).last() == '0');
            assert(digit_value('0', radix) == Some(0nat));
            assert(0 * radix + 0 == 0);
        }
        assert(digits_value(zero_digits(k), radix) == Some(0nat));
    } else {
        lemma_leading_zeros(k, s.drop_last(), radix);
        assert((zero_digits(k) + s).drop_last() =~= zero_digits(k) + s.drop_last());
        assert((zero_digits(k) + s).last() == s.last());
    }
}

/// Round trip of the number syntax: any `u32` written in decimal (`{}`),
/// or in hexadecimal behind `0x` or `0X`, in either case and with any number
/// of leading zeros (`{:#x}`, `0X{:X}`, `{:#010x}`), reads back as itself.
pub proof fn lemma_number_round_trip(n: u32, zeros: nat, upper: bool)
    ensures
        number_value(render(n as nat, 10, false)) == Some(n),
        number_value(seq!['0', 'x'] + zero_digits(zeros) + render(n as nat, 16, upper)) == Some(n),
        number_value(seq!['0', 'X'] + zero_digits(zeros) + render(n as nat, 16, upper)) == Some(n),
{
    lemma_render(n as nat, 10, false);
    let d = render(n as nat, 10, false);
    if d.len() >= 2 {
        assert(d[1] != 'x' && d[1] != 'X');
    }
    assert(d[0] != '+');
    lemma_render(n as nat, 16, upper);
    let h = render(n as nat, 16, upper);
    lemma_leading_zeros(zeros, h, 16);
    let body = zero_digits(zeros) + h;
    assert(body.len() > 0);
    assert(body[0] != '+') by {
        if zeros > 0 {
            assert(body[0] == '0');
        } else {
            assert(body[0] == h[0]);
        }
    }
    let lower = seq!['0', 'x'] + zero_digits(zeros) + h;
    let upper_x = seq!['0', 'X'] + zero_digits(zeros) + h;
    assert(lower.skip(2) =~= body);
    assert(upper_x.skip(2) =~= body);
}

/// Whether two strings hold the same characters.
pub fn str_eq(a: &str, b: &str) -> (eq: bool)
    ensures
        eq == (a@ == b@),
{
    let n = a.unicode_len();
    if n != b.unicode_len() {
        return false;
    }
    let mut i: usize = 0;
    while i < n
        invariant
            n == a@.len(),
            n == b@.len(),
            i <= n,
            forall|k: int| 0 <= k < i ==> a@[k] == b@[k],
        decreases n - i,
    {
        if a.get_char(i) != b.get_char(i) {
            return false;
        }
        i = i + 1;
    }
    assert(a@ =~= b@);
    true
}


/// The two flags that take a value.
#[derive(Clone, Copy, PartialEq, Eq, Debug, Structural)]
pub enum Flag {
    Base,
    Family,
}

/// What is wrong with a command line.
#[derive(Debug, PartialEq, Eq)]
pub enum ArgError {
    /// A flag is the last argument.
    TakesValue(Flag),
    /// A flag's value is not a number.
    NotANumber(Flag, String),
    /// An argument starts with `-` and is no flag.
    UnknownFlag(String),
    /// A third positional argument.
    UnexpectedArgument(String),
    MissingInput,
    MissingOutput,
    MissingBase,
    MissingFamily,
}

/// `ArgError` with its strings taken as characters.
pub enum ArgFault {
    TakesValue(Flag),
    NotANumber(Flag, Seq<char>),
    UnknownFlag(Seq<char>),
    UnexpectedArgument(Seq<char>),
    MissingInput,
    MissingOutput,
    MissingBase,
    MissingFamily,
}

impl View for ArgError {
    type V = ArgFault;

    open spec fn view(&self) -> ArgFault {
        match self {
            ArgError::TakesValue(f) => ArgFault::TakesValue(*f),
            ArgError::NotANumber(f, v) => ArgFault::NotANumber(*f, v@),
            ArgError::UnknownFlag(a) => ArgFault::UnknownFlag(a@),
            ArgError::UnexpectedArgument(a) => ArgFault::UnexpectedArgument(a@),
            ArgError::MissingInput => ArgFault::MissingInput,
            ArgError::MissingOutput => ArgFault::MissingOutput,
            ArgError::MissingBase => ArgFault::MissingBase,
            ArgError::MissingFamily => ArgFault::MissingFamily,
        }
    }
}

/// A command line that names everything the tool needs.
pub struct Args {
    pub input: String,
    pub output: String,
    pub base: u32,
    pub family: u32,
}

/// `Args` with its strings taken as characters.
pub struct ArgsView {
    pub input: Seq<char>,
    pub output: Seq<char>,
    pub base: u32,
    pub family: u32,
}

impl View for Args {
    type V = ArgsView;

    open spec fn view(&self) -> ArgsView {
        ArgsView { input: self.input@, output: self.output@, base: self.base, family: self.family }
    }
}

/// What has been read of the command line so far.
pub struct Pending {
    pub input: Option<Seq<char>>,
    pub output: Option<Seq<char>>,
    pub base: Option<u32>,
    pub family: Option<u32>,
}

/// Reads the arguments from `i` on. A flag takes the next argument as its
/// value; a repeated flag keeps its last value; the first positional
/// argument is the input and the second the output.
pub open spec fn scan_args(args: Seq<Seq<char>>, i: nat, st: Pending) -> Result<Pending, ArgFault>
    decreases args.len() - i,
{
    if i >= args.len() {
        Ok(st)
    } else {
        let a = args[i as int];
        if a == "--base"@ || a == "--family"@ {
            let flag = if a == "--base"@ { Flag::Base } else { Flag::Family };
            if i + 1 >= args.len() {
                Err(ArgFault::TakesValue(flag))
            } else {
                let v = args[i + 1 as int];
                match number_value(v) {
                    None => Err(ArgFault::NotANumber(flag, v)),
                    Some(n) => if flag == Flag::Base {
                        scan_args(args, i + 2, Pending { base: Some(n), ..st })
                    } else {
                        scan_args(args, i + 2, Pending { family: Some(n), ..st })
                    },
                }
            }
        } else if a.len() > 0 && a[0] == '-' {
            Err(ArgFault::UnknownFlag(a))
        } else if st.input is None {
            scan_args(args, i + 1, Pending { input: Some(a), ..st })
        } else if st.output is None {
            scan_args(args, i + 1, Pending { output: Some(a), ..st })
        } else {
            Err(ArgFault::UnexpectedArgument(a))
        }
    }
}

/// The scan's state before the first argument: nothing read yet.
pub open spec fn nothing_read() -> Pending {
    Pending { input: None, output: None, base: None, family: None }
}

/// The meaning of a command line (without the program name).
pub open spec fn args_meaning(args: Seq<Seq<char>>) -> Result<ArgsView, ArgFault> {
    match scan_args(args, 0, nothing_read()) {
        Err(e) => Err(e),
        Ok(st) => if st.input is None {
            Err(ArgFault::MissingInput)
        } else if st.output is None {
            Err(ArgFault::MissingOutput)
        } else if st.base is None {
            Err(ArgFault::MissingBase)
        } else if st.family is None {
            Err(ArgFault::MissingFamily)
        } else {
            Ok(ArgsView {
                input: st.input.unwrap(),
                output: st.output.unwrap(),
                base: st.base.unwrap(),
                family: st.family.unwrap(),
            })
        },
    }
}

/// One of the two flags that take a value.
pub open spec fn is_flag(a: Seq<char>) -> bool {
    a == "--base"@ || a == "--family"@
}

/// A positional argument: neither a flag nor anything else that starts
/// with `-`.
pub open spec fn is_positional(a: Seq<char>) -> bool {
    !is_flag(a) && !(a.len() > 0 && a[0] == '-')
}

/// The scan reads two command lines alike from `j` on where they agree from
/// `j` on.
proof fn lemma_scan_same_tail(s1: Seq<Seq<char>>, s2: Seq<Seq<char>>, j: nat, st: Pending)
    requires
        s1.len() == s2.len(),
        forall|k: int| j <= k < s1.len() ==> s1[k] == s2[k],
    ensures
        scan_args(s1, j, st) == scan_args(s2, j, st),
    decreases s1.len() - j,
{
    if j < s1.len() {
        let a = s1[j as int];
        if is_flag(a) {
            if j + 1 < s1.len() {
                let flag = if a == "--base"@ { Flag::Base } else { Flag::Family };
                if let Some(n) = number_value(s1[j + 1int]) {
                    if flag == Flag::Base {
                        lemma_scan_same_tail(s1, s2, j + 2, Pending { base: Some(n), ..st });
                    } else {
                        lemma_scan_same_tail(s1, s2, j + 2, Pending { family: Some(n), ..st });
                    }
                }
            }
        } else if a.len() > 0 && a[0] == '-' {
        } else if st.input is None {
            lemma_scan_same_tail(s1, s2, j + 1, Pending { input: Some(a), ..st });
        } else if st.output is None {
            lemma_scan_same_tail(s1, s2, j + 1, Pending { output: Some(a), ..st });
        }
    }
}

/// Wherever the scan stands, a flag with a valid value and the positional
/// argument after it may trade places: `f v x` and `x f v` read alike.
pub proof fn lemma_flag_passes_positional(s1: Seq<Seq<char>>, s2: Seq<Seq<char>>, i: nat, st: Pending)
    requires
        i + 3 <= s1.len(),
        s1.len() == s2.len(),
        is_flag(s1[i as int]),
        number_value(s1[i + 1int]) is Some,
        is_positional(s1[i + 2int]),
        s2[i as int] == s1[i + 2int],
        s2[i + 1int] == s1[i as int],
        s2[i + 2int] == s1[i + 1int],
        forall|k: int| 0 <= k < s1.len() && (k < i || k >= i + 3) ==> s1[k] == s2[k],
    ensures
        scan_args(s1, i, st) == scan_args(s2, i, st),
{
    let f = s1[i as int];
    let v = s1[i + 1int];
    let x = s1[i + 2int];
    let n = number_value(v).unwrap();
    let with_flag = if f == "--base"@ { Pending { base: Some(n), ..st } } else { Pending { family: Some(n), ..st } };
    assert(scan_args(s1, i, st) == scan_args(s1, i + 2, with_flag));
    if st.input is None {
        let both = Pending { input: Some(x), ..with_flag };
        let first = Pending { input: Some(x), ..st };
        assert(scan_args(s1, i + 2, with_flag) == scan_args(s1, i + 3, both));
        assert(scan_args(s2, i, st) == scan_args(s2, i + 1, first));
        assert(scan_args(s2, i + 1, first) == scan_args(s2, (i + 1) + 2, both));
        lemma_scan_same_tail(s1, s2, i + 3, both);
    } else if st.output is None {
        let both = Pending { output: Some(x), ..with_flag };
        let first = Pending { output: Some(x), ..st };
        assert(scan_args(s1, i + 2, with_flag) == scan_args(s1, i + 3, both));
        assert(scan_args(s2, i, st) == scan_args(s2, i + 1, first));
        assert(scan_args(s2, i + 1, first) == scan_args(s2, (i + 1) + 2, both));
        lemma_scan_same_tail(s1, s2, i + 3, both);
    } else {
        assert(scan_args(s1, i + 2, with_flag) == Err::<Pending, ArgFault>(ArgFault::UnexpectedArgument(x)));
    }
}

/// Wherever the scan stands, two different flags with valid values may
/// trade places: `f1 v1 f2 v2` and `f2 v2 f1 v1` read alike.
pub proof fn lemma_flags_commute(s1: Seq<Seq<char>>, s2: Seq<Seq<char>>, i: nat, st: Pending)
    requires
        i + 4 <= s1.len(),
        s1.len() == s2.len(),
        is_flag(s1[i as int]),
        is_flag(s1[i + 2int]),
        s1[i as int] != s1[i + 2int],
        number_value(s1[i + 1int]) is Some,
        number_value(s1[i + 3int]) is Some,
        s2[i as int] == s1[i + 2int],
        s2[i + 1int] == s1[i + 3int],
        s2[i + 2int] == s1[i as int],
        s2[i + 3int] == s1[i + 1int],
        forall|k: int| 0 <= k < s1.len() && (k < i || k >= i + 4) ==> s1[k] == s2[k],
    ensures
        scan_args(s1, i, st) == scan_args(s2, i, st),
{
    let f1 = s1[i as int];
    let f2 = s1[i + 2int];
    let n1 = number_value(s1[i + 1int]).unwrap();
    let n2 = number_value(s1[i + 3int]).unwrap();
    let set1 = if f1 == "--base"@ { Pending { base: Some(n1), ..st } } else { Pending { family: Some(n1), ..st } };
    let set2 = if f2 == "--base"@ { Pending { base: Some(n2), ..st } } else { Pending { family: Some(n2), ..st } };
    let both = if f1 == "--base"@ {
        Pending { base: Some(n1), family: Some(n2), ..st }
    } else {
        Pending { family: Some(n1), base: Some(n2), ..st }
    };
    assert(scan_args(s1, i, st) == scan_args(s1, i + 2, set1));
    assert(scan_args(s1, i + 2, set1) == scan_args(s1, i + 4, both));
    assert(scan_args(s2, i, st) == scan_args(s2, i + 2, set2));
    assert(scan_args(s2, i + 2, set2) == scan_args(s2, i + 4, both));
    lemma_scan_same_tail(s1, s2, i + 4, both);
}

/// A scan that gets through a command line `p` from `i` to its end reads
/// `p` followed by anything else the same way up to the end of `p`.
proof fn lemma_scan_prefix(p: Seq<Seq<char>>, r: Seq<Seq<char>>, i: nat, st: Pending, fin: Pending)
    requires
        i <= p.len(),
        scan_args(p, i, st) == Ok::<Pending, ArgFault>(fin),
    ensures
        scan_args(p + r, i, st) == scan_args(p + r, p.len(), fin),
    decreases p.len() - i,
{
    let s = p + r;
    if i < p.len() {
        let a = p[i as int];
        assert(s[i as int] == a);
        if is_flag(a) {
            let flag = if a == "--base"@ { Flag::Base } else { Flag::Family };
            assert(i + 1 < p.len());
            let v = p[i + 1int];
            assert(s[i + 1int] == v);
            let n = number_value(v).unwrap();
            if flag == Flag::Base {
                lemma_scan_prefix(p, r, i + 2, Pending { base: Some(n), ..st }, fin);
            } else {
                lemma_scan_prefix(p, r, i + 2, Pending { family: Some(n), ..st }, fin);
            }
        } else if st.input is None {
            lemma_scan_prefix(p, r, i + 1, Pending { input: Some(a), ..st }, fin);
        } else {
            lemma_scan_prefix(p, r, i + 1, Pending { output: Some(a), ..st }, fin);
        }
    }
}

/// The last value of a flag wins: appending `--base v` or `--family v`, with
/// `v` a number, to a command line that reads as `a` reads as `a` with that
/// field set to `v`'s value and every other field kept.
pub proof fn lemma_last_flag_wins(p: Seq<Seq<char>>, v: Seq<char>, n: u32)
    requires
        number_value(v) == Some(n),
        args_meaning(p) is Ok,
    ensures
        args_meaning(p + seq!["--base"@, v]) == Ok::<ArgsView, ArgFault>(
            ArgsView { base: n, ..args_meaning(p)->Ok_0 },
        ),
        args_meaning(p + seq!["--family"@, v]) == Ok::<ArgsView, ArgFault>(
            ArgsView { family: n, ..args_meaning(p)->Ok_0 },
        ),
{
    reveal_strlit("--base");
    reveal_strlit("--family");
    assert("--base"@ != "--family"@) by {
        assert("--base"@[2] != "--family"@[2]);
    }
    let init = Pending { input: None, output: None, base: None, family: None };
    let fin = scan_args(p, 0, init)->Ok_0;
    let rb = seq!["--base"@, v];
    let rf = seq!["--family"@, v];
    lemma_scan_prefix(p, rb, 0, init, fin);
    lemma_scan_prefix(p, rf, 0, init, fin);
    let sb = p + rb;
    let sf = p + rf;
    assert(sb[p.len() as int] == "--base"@);
    assert(sb[p.len() + 1int] == v);
    assert(sf[p.len() as int] == "--family"@);
    assert(sf[p.len() + 1int] == v);
    assert(scan_args(sb, p.len() + 2, Pending { base: Some(n), ..fin }) == Ok::<Pending, ArgFault>(
        Pending { base: Some(n), ..fin },
    ));
    assert(scan_args(sf, p.len() + 2, Pending { family: Some(n), ..fin }) == Ok::<Pending, ArgFault>(
        Pending { family: Some(n), ..fin },
    ));
    assert(scan_args(sb, p.len(), fin) == Ok::<Pending, ArgFault>(Pending { base: Some(n), ..fin }));
    assert(scan_args(sf, p.len(), fin) == Ok::<Pending, ArgFault>(Pending { family: Some(n), ..fin }));
}

/// The first positional argument is the input and the second the output,
/// and each flag's value goes to its own field: `x y --base b --family f`
/// reads as input `x`, output `y`, base `b` and family `f`.
pub proof fn lemma_positional_order(x: Seq<char>, y: Seq<char>, bv: Seq<char>, fv: Seq<char>, b: u32, f: u32)
    requires
        is_positional(x),
        is_positional(y),
        number_value(bv) == Some(b),
        number_value(fv) == Some(f),
    ensures
        args_meaning(seq![x, y, "--base"@, bv, "--family"@, fv]) == Ok::<ArgsView, ArgFault>(
            ArgsView { input: x, output: y, base: b, family: f },
        ),
{
    reveal_strlit("--base");
    reveal_strlit("--family");
    let s = seq![x, y, "--base"@, bv, "--family"@, fv];
    let p0 = nothing_read();
    let p1 = Pending { input: Some(x), ..p0 };
    let p2 = Pending { output: Some(y), ..p1 };
    let p3 = Pending { base: Some(b), ..p2 };
    let p4 = Pending { family: Some(f), ..p3 };
    assert(s[2] != "--family"@) by {
        assert(s[2][2] != "--family"@[2]);
    }
    assert(scan_args(s, 6, p4) == Ok::<Pending, ArgFault>(p4));
    assert(scan_args(s, 4, p3) == scan_args(s, 6, p4));
    assert(scan_args(s, 2, p2) == scan_args(s, 4, p3));
    assert(scan_args(s, 1, p1) == scan_args(s, 2, p2));
    assert(scan_args(s, 0, p0) == scan_args(s, 1, p1));
}

/// Only two positional arguments are taken: a third one, wherever the
/// command line goes on after it, is refused by name.
pub proof fn lemma_third_positional_refused(x: Seq<char>, y: Seq<char>, z: Seq<char>, rest: Seq<Seq<char>>)
    requires
        is_positional(x),
        is_positional(y),
        is_positional(z),
    ensures
        args_meaning(seq![x, y, z] + rest) == Err::<ArgsView, ArgFault>(ArgFault::UnexpectedArgument(z)),
{
    let s = seq![x, y, z] + rest;
    assert(s[0] == x && s[1] == y && s[2] == z);
    let p1 = Pending { input: Some(x), ..nothing_read() };
    let p2 = Pending { output: Some(y), ..p1 };
    assert(scan_args(s, 2, p2) == Err::<Pending, ArgFault>(ArgFault::UnexpectedArgument(z)));
    assert(scan_args(s, 1, p1) == scan_args(s, 2, p2));
    assert(scan_args(s, 0, nothing_read()) == scan_args(s, 1, p1));
}

/// After a command line that reads without fault, an argument that starts
/// with `-` and is no flag is refused by name, whatever follows it.
pub proof fn lemma_unknown_flag_refused(p: Seq<Seq<char>>, a: Seq<char>, rest: Seq<Seq<char>>)
    requires
        scan_args(p, 0, nothing_read()) is Ok,
        a.len() > 0,
        a[0] == '-',
        !is_flag(a),
    ensures
        args_meaning(p + seq![a] + rest) == Err::<ArgsView, ArgFault>(ArgFault::UnknownFlag(a)),
{
    let fin = scan_args(p, 0, nothing_read())->Ok_0;
    let r = seq![a] + rest;
    lemma_scan_prefix(p, r, 0, nothing_read(), fin);
    assert(p + seq![a] + rest =~= p + r);
    assert((p + r)[p.len() as int] == a);
}

/// After a command line that reads without fault, a flag with nothing after
/// it is refused as taking a value, and a flag whose value is no number is
/// refused with that value, whatever follows it.
pub proof fn lemma_flag_value_refused(p: Seq<Seq<char>>, fl: Flag, v: Seq<char>, rest: Seq<Seq<char>>)
    requires
        scan_args(p, 0, nothing_read()) is Ok,
    ensures
        args_meaning(p + seq![flag_name(fl)]) == Err::<ArgsView, ArgFault>(ArgFault::TakesValue(fl)),
        number_value(v) is None ==> args_meaning(p + seq![flag_name(fl), v] + rest)
            == Err::<ArgsView, ArgFault>(ArgFault::NotANumber(fl, v)),
{
    reveal_strlit("--base");
    reveal_strlit("--family");
    assert("--base"@ != "--family"@) by {
        assert("--base"@[2] != "--family"@[2]);
    }
    let fin = scan_args(p, 0, nothing_read())->Ok_0;
    let r1 = seq![flag_name(fl)];
    lemma_scan_prefix(p, r1, 0, nothing_read(), fin);
    assert((p + r1)[p.len() as int] == flag_name(fl));
    let r2 = seq![flag_name(fl), v] + rest;
    lemma_scan_prefix(p, r2, 0, nothing_read(), fin);
    assert(p + seq![flag_name(fl), v] + rest =~= p + r2);
    assert((p + r2)[p.len() as int] == flag_name(fl));
    assert((p + r2)[p.len() + 1int] == v);
}

/// Numbers that do not fit in 32 bits are refused, in decimal and in
/// hexadecimal alike.
pub proof fn lemma_number_too_large(n: nat, upper: bool)
    requires
        n > u32::MAX,
    ensures
        number_value(render(n, 10, false)) is None,
        number_value(seq!['0', 'x'] + render(n, 16, upper)) is None,
        number_value(seq!['0', 'X'] + render(n, 16, upper)) is None,
{
    lemma_render(n, 10, false);
    let d = render(n, 10, false);
    if d.len() >= 2 {
        assert(d[1] != 'x' && d[1] != 'X');
    }
    assert(d[0] != '+');
    lemma_render(n, 16, upper);
    let h = render(n, 16, upper);
    assert(h[0] != '+');
    assert((seq!['0', 'x'] + h).skip(2) =~= h);
    assert((seq!['0', 'X'] + h).skip(2) =~= h);
}

/// The strings of a command line as characters.
pub open spec fn arg_chars(args: Seq<String>) -> Seq<Seq<char>> {
    args.map_values(|s: String| s@)
}

/// How the tool spells a flag.
pub open spec fn flag_name(f: Flag) -> Seq<char> {
    match f {
        Flag::Base => "--base"@,
        Flag::Family => "--family"@,
    }
}

/// The line the tool prints for an error.
pub open spec fn fault_text(e: ArgFault) -> Seq<char> {
    match e {
        ArgFault::TakesValue(f) => flag_name(f) + " takes a value"@,
        ArgFault::NotANumber(f, v) => flag_name(f) + ": not a number: "@ + v,
        ArgFault::UnknownFlag(a) => "unknown flag: "@ + a,
        ArgFault::UnexpectedArgument(a) => "unexpected argument: "@ + a,
        ArgFault::MissingInput => "missing input"@,
        ArgFault::MissingOutput => "missing output"@,
        ArgFault::MissingBase => "missing --base"@,
        ArgFault::MissingFamily => "missing --family"@,
    }
}

impl Flag {
    /// How the tool spells the flag.
    pub fn name(self) -> (s: &'static str)
        ensures
            s@ == flag_name(self),
    {
        match self {
            Flag::Base => "--base",
            Flag::Family => "--family",
        }
    }
}

impl ArgError {
    /// The line the tool prints for this error.
    pub fn message(&self) -> (m: String)
        ensures
            m@ == fault_text(self@),
    {
        match self {
            ArgError::TakesValue(f) => String::from_str(f.name()).concat(" takes a value"),
            ArgError::NotANumber(f, v) => String::from_str(f.name()).concat(": not a number: ").concat(v.as_str()),
            ArgError::UnknownFlag(a) => String::from_str("unknown flag: ").concat(a.as_str()),
            ArgError::UnexpectedArgument(a) => String::from_str("unexpected argument: ").concat(a.as_str()),
            ArgError::MissingInput => String::from_str("missing input"),
            ArgError::MissingOutput => String::from_str("missing output"),
            ArgError::MissingBase => String::from_str("missing --base"),
            ArgError::MissingFamily => String::from_str("missing --family"),
        }
    }
}

/// Reads a command line (without the program name).
pub fn parse_arguments(args: &[String]) -> (r: Result<Args, ArgError>)
    ensures
        match args_meaning(arg_chars(args@)) {
            Ok(v) => r matches Ok(a) && a@ == v,
            Err(e) => r matches Err(err) && err@ == e,
        },
{
    let ghost chars = arg_chars(args@);
    let ghost start = Pending { input: None, output: None, base: None, family: None };
    let mut input: Option<String> = None;
    let mut output: Option<String> = None;
    let mut base: Option<u32> = None;
    let mut family: Option<u32> = None;
    let n = args.len();
    let mut i: usize = 0;
    while i < n
        invariant
            n == args@.len(),
            chars == arg_chars(args@),
            start == (Pending { input: None, output: None, base: None, family: None }),
            i <= n,
            scan_args(chars, 0, start) == scan_args(
                chars,
                i as nat,
                Pending {
                    input: match input {
                        Some(s) => Some(s@),
                        None => None,
                    },
                    output: match output {
                        Some(s) => Some(s@),
                        None => None,
                    },
                    base,
                    family,
                },
            ),
        decreases n - i,
    {
        let a = args[i].as_str();
        assert(chars[i as int] == a@);
        let is_base = str_eq(a, "--base");
        let is_family = str_eq(a, "--family");
        if is_base || is_family {
            let flag = if is_base {
                Flag::Base
            } else {
                Flag::Family
            };
            if i + 1 >= n {
                return Err(ArgError::TakesValue(flag));
            }
            let v = args[i + 1].as_str();
            assert(chars[i + 1] == v@);
            match parse_u32(v) {
                None => {
                    return Err(ArgError::NotANumber(flag, String::from_str(v)));
                },
                Some(value) => {
                    if is_base {
                        base = Some(value);
                    } else {
                        family = Some(value);
                    }
                },
            }
            i = i + 2;
        } else if a.unicode_len() > 0 && a.get_char(0) == '-' {
            return Err(ArgError::UnknownFlag(String::from_str(a)));
        } else if input.is_none() {
            input = Some(String::from_str(a));
            i = i + 1;
        } else if output.is_none() {
            output = Some(String::from_str(a));
            i = i + 1;
        } else {
            return Err(ArgError::UnexpectedArgument(String::from_str(a)));
        }
    }
    match (input, output, base, family) {
        (None, _, _, _) => Err(ArgError::MissingInput),
        (Some(_), None, _, _) => Err(ArgError::MissingOutput),
        (Some(_), Some(_), None, _) => Err(ArgError::MissingBase),
        (Some(_), Some(_), Some(_), None) => Err(ArgError::MissingFamily),
        (Some(input), Some(output), Some(base), Some(family)) => Ok(Args { input, output, base, family }),
    }
}

/// Reads a command line (without the program name); an error comes back as
/// the line the tool prints for it.
pub fn parse_args(args: &[String]) -> (r: Result<Args, String>)
    ensures
        match args_meaning(arg_chars(args@)) {
            Ok(v) => r matches Ok(a) && a@ == v,
            Err(e) => r matches Err(m) && m@ == fault_text(e),
        },
{
    match parse_arguments(args) {
        Ok(a) => Ok(a),
        Err(e) => Err(e.message()),
    }
}

} // verus!
