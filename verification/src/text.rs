//! Character-level string operations with exact specifications.

use vstd::prelude::*;
use vstd::string::{StrSliceExecFns, StringExecFns};
use crate::strings::owned;

verus! {

/// `s` with every occurrence of `pat` replaced by `val`, scanning left to
/// right without overlap (occurrences created by a replacement are not
/// revisited). An empty pattern leaves `s` unchanged.
pub open spec fn replace_all(s: Seq<char>, pat: Seq<char>, val: Seq<char>) -> Seq<char>
    decreases s.len(),
{
    if pat.len() == 0 || s.len() < pat.len() {
        s
    } else if s.subrange(0, pat.len() as int) == pat {
        val + replace_all(s.subrange(pat.len() as int, s.len() as int), pat, val)
    } else {
        seq![s[0]] + replace_all(s.subrange(1, s.len() as int), pat, val)
    }
}

/// `s` with each space and hyphen turned into an underscore.
pub open spec fn snake(s: Seq<char>) -> Seq<char> {
    s.map_values(|c: char| if c == ' ' || c == '-' { '_' } else { c })
}

/// `pat` occurs in `s` at position `i`.
pub open spec fn occurs_at(s: Seq<char>, pat: Seq<char>, i: int) -> bool {
    0 <= i && i + pat.len() <= s.len() && s.subrange(i, i + pat.len()) == pat
}

/// Whether `pat` occurs in `s` at position `i`.
pub fn matches_at(s: &str, pat: &str, i: usize) -> (r: bool)
    requires
        i <= s@.len(),
    ensures
        r == occurs_at(s@, pat@, i as int),
{
    let n = s.unicode_len();
    let m = pat.unicode_len();
    if m > n - i {
        return false;
    }
    let mut k: usize = 0;
    while k < m
        invariant
            n == s@.len(),
            m == pat@.len(),
            i + m <= n,
            k <= m,
            forall|q: int| 0 <= q < k ==> s@[i + q] == pat@[q],
        decreases m - k,
    {
        if s.get_char(i + k) != pat.get_char(k) {
            assert(s@.subrange(i as int, i + m)[k as int] != pat@[k as int]);
            return false;
        }
        k = k + 1;
    }
    assert(s@.subrange(i as int, i + m) =~= pat@);
    true
}

/// Replace every occurrence of a non-empty `pat` in `s` by `val`.
pub fn replace_all_str(s: &str, pat: &str, val: &str) -> (r: String)
    requires
        pat@.len() > 0,
    ensures
        r@ == replace_all(s@, pat@, val@),
{
    let n = s.unicode_len();
    let m = pat.unicode_len();
    let mut out = String::new();
    let mut i: usize = 0;
    assert(s@.subrange(0, n as int) =~= s@);
    assert(out@ + s@ =~= s@);
    while i < n
        invariant
            n == s@.len(),
            m == pat@.len(),
            m > 0,
            i <= n,
            out@ + replace_all(s@.subrange(i as int, n as int), pat@, val@) == replace_all(s@, pat@, val@),
        decreases n - i,
    {
        let ghost rest = s@.subrange(i as int, n as int);
        let ghost before = out@;
        if matches_at(s, pat, i) {
            assert(rest.subrange(0, m as int) =~= pat@);
            assert(rest.subrange(m as int, rest.len() as int) =~= s@.subrange(i + m, n as int));
            out.append(val);
            assert(before + (val@ + replace_all(s@.subrange(i + m, n as int), pat@, val@))
                =~= (before + val@) + replace_all(s@.subrange(i + m, n as int), pat@, val@));
            i = i + m;
        } else {
            let one = s.substring_char(i, i + 1);
            assert(rest.subrange(1, rest.len() as int) =~= s@.subrange(i + 1, n as int));
            proof {
                if rest.len() >= m {
                    assert(rest.subrange(0, m as int) != pat@) by {
                        assert(rest.subrange(0, m as int) =~= s@.subrange(i as int, i + m));
                    }
                    assert(one@ =~= seq![rest[0]]);
                } else {
                    assert(s@.subrange(i + 1, n as int).len() < m);
                    assert(rest =~= one@ + s@.subrange(i + 1, n as int));
                }
            }
            out.append(one);
            assert(before + (one@ + replace_all(s@.subrange(i + 1, n as int), pat@, val@))
                =~= (before + one@) + replace_all(s@.subrange(i + 1, n as int), pat@, val@));
            i = i + 1;
        }
    }
    assert(s@.subrange(n as int, n as int).len() == 0);
    assert(out@ + s@.subrange(n as int, n as int) =~= out@);
    out
}

/// `s` with each space and hyphen turned into an underscore.
pub fn snake_case(s: &str) -> (r: String)
    ensures
        r@ == snake(s@),
{
    let n = s.unicode_len();
    let mut out = String::new();
    let mut i: usize = 0;
    while i < n
        invariant
            n == s@.len(),
            i <= n,
            out@ == snake(s@.subrange(0, i as int)),
        decreases n - i,
    {
        let c = s.get_char(i);
        if c == ' ' || c == '-' {
            out.append("_");
            proof {
                reveal_strlit("_");
            }
        } else {
            out.append(s.substring_char(i, i + 1));
        }
        assert(snake(s@.subrange(0, i + 1)) =~= snake(s@.subrange(0, i as int)).push(if c == ' ' || c == '-' { '_' } else { c }));
        assert(out@ =~= snake(s@.subrange(0, i + 1)));
        i = i + 1;
    }
    assert(s@.subrange(0, n as int) =~= s@);
    out
}

/// The concatenation of `a` and `b`.
pub fn concat(a: &str, b: &str) -> (r: String)
    ensures
        r@ == a@ + b@,
{
    let mut out = String::from_str(a);
    out.append(b);
    out
}

/// The decimal digits of `n`, without leading zeros.
pub open spec fn decimal(n: nat) -> Seq<char>
    decreases n,
{
    if n < 10 {
        seq![(n + 48) as char]
    } else {
        decimal(n / 10).push((n % 10 + 48) as char)
    }
}

/// The decimal digits of a number have at least one digit, and two or
/// more from ten on.
pub proof fn lemma_decimal_len(n: nat)
    ensures
        decimal(n).len() >= 1,
        n >= 10 ==> decimal(n).len() >= 2,
    decreases n,
{
    if n >= 10 {
        lemma_decimal_len(n / 10);
    }
}

/// Different numbers have different decimal digits.
pub proof fn lemma_decimal_injective(a: nat, b: nat)
    requires
        decimal(a) == decimal(b),
    ensures
        a == b,
    decreases a,
{
    lemma_decimal_len(a);
    lemma_decimal_len(b);
    if a < 10 && b < 10 {
        let x = decimal(a)[0];
        let y = decimal(b)[0];
        assert(x == (a + 48) as char);
        assert(y == (b + 48) as char);
        assert(x as int == a + 48);
        assert(y as int == b + 48);
        assert(a == b);
    } else if a >= 10 && b >= 10 {
        let da = decimal(a);
        let db = decimal(b);
        assert(da.last() == db.last());
        assert(((a % 10 + 48) as char) as int == a % 10 + 48);
        assert(((b % 10 + 48) as char) as int == b % 10 + 48);
        assert(da.drop_last() =~= decimal(a / 10));
        assert(db.drop_last() =~= decimal(b / 10));
        lemma_decimal_injective(a / 10, b / 10);
        assert(a == 10 * (a / 10) + a % 10) by (nonlinear_arith);
        assert(b == 10 * (b / 10) + b % 10) by (nonlinear_arith);
        assert(a % 10 == b % 10);
        assert(a == b);
    } else {
        assert(decimal(a).len() == decimal(b).len());
        assert(false);
    }
}

/// The decimal digit `d` as a one-character string.
fn digit_text(d: usize) -> (r: String)
    requires
        d < 10,
    ensures
        r@ == seq![(d + 48) as char],
{
    match d {
        0 => {
            proof {
                reveal_strlit("0");
            }
            owned("0")
        },
        1 => {
            proof {
                reveal_strlit("1");
            }
            owned("1")
        },
        2 => {
            proof {
                reveal_strlit("2");
            }
            owned("2")
        },
        3 => {
            proof {
                reveal_strlit("3");
            }
            owned("3")
        },
        4 => {
            proof {
                reveal_strlit("4");
            }
            owned("4")
        },
        5 => {
            proof {
                reveal_strlit("5");
            }
            owned("5")
        },
        6 => {
            proof {
                reveal_strlit("6");
            }
            owned("6")
        },
        7 => {
            proof {
                reveal_strlit("7");
            }
            owned("7")
        },
        8 => {
            proof {
                reveal_strlit("8");
            }
            owned("8")
        },
        _ => {
            proof {
                reveal_strlit("9");
            }
            owned("9")
        },
    }
}

/// The decimal digits of `n`, as `usize::to_string` writes them.
pub(crate) fn number_text(n: usize) -> (r: String)
    ensures
        r@ == decimal(n as nat),
    decreases n,
{
    if n < 10 {
        digit_text(n)
    } else {
        let head = number_text(n / 10);
        let last = digit_text(n % 10);
        concat(head.as_str(), last.as_str())
    }
}

/// Whether `c` is white space as `char::is_whitespace` decides it: the
/// characters with the Unicode `White_Space` property.
pub open spec fn is_white(c: char) -> bool {
    let u = c as int;
    ||| 9 <= u <= 13
    ||| u == 32
    ||| u == 0x85
    ||| u == 0xA0
    ||| u == 0x1680
    ||| 0x2000 <= u <= 0x200A
    ||| u == 0x2028
    ||| u == 0x2029
    ||| u == 0x202F
    ||| u == 0x205F
    ||| u == 0x3000
}

/// `s` without its leading white space.
pub open spec fn trim_start(s: Seq<char>) -> Seq<char>
    decreases s.len(),
{
    if s.len() > 0 && is_white(s[0]) {
        trim_start(s.drop_first())
    } else {
        s
    }
}

/// `s` without its trailing white space.
pub open spec fn trim_end(s: Seq<char>) -> Seq<char>
    decreases s.len(),
{
    if s.len() > 0 && is_white(s.last()) {
        trim_end(s.drop_last())
    } else {
        s
    }
}

/// `s` without leading and trailing white space, as `str::trim` gives it.
pub open spec fn trimmed(s: Seq<char>) -> Seq<char> {
    trim_end(trim_start(s))
}

/// Whether `c` is white space.
pub fn white(c: char) -> (r: bool)
    ensures
        r == is_white(c),
{
    let u = c as u32;
    (9 <= u && u <= 13) || u == 32 || u == 0x85 || u == 0xA0 || u == 0x1680 || (0x2000 <= u && u <= 0x200A)
        || u == 0x2028 || u == 0x2029 || u == 0x202F || u == 0x205F || u == 0x3000
}

/// `s` without leading and trailing white space.
pub fn trim(s: &str) -> (r: &str)
    ensures
        r@ == trimmed(s@),
{
    let n = s.unicode_len();
    let mut i: usize = 0;
    assert(s@.skip(0) =~= s@);
    while i < n && white(s.get_char(i))
        invariant
            n == s@.len(),
            i <= n,
            trim_start(s@) == trim_start(s@.skip(i as int)),
        decreases n - i,
    {
        assert(s@.skip(i as int).drop_first() =~= s@.skip(i + 1));
        i = i + 1;
    }
    let ghost rest = s@.skip(i as int);
    assert(trim_start(s@) == rest);
    let mut j: usize = n;
    assert(rest.take(n - i) =~= rest);
    while j > i && white(s.get_char(j - 1))
        invariant
            n == s@.len(),
            i <= j <= n,
            rest == s@.skip(i as int),
            trim_end(rest) == trim_end(rest.take(j - i)),
        decreases j,
    {
        assert(rest.take(j - i).drop_last() =~= rest.take(j - 1 - i));
        j = j - 1;
    }
    let r = s.substring_char(i, j);
    assert(r@ =~= rest.take(j - i));
    r
}

} // verus!

