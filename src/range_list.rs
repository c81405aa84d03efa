//! The CPU range-list syntax: comma-separated tokens, each a CPU ID or an
//! inclusive range `start-end`, such as `"0-3,5,7-9"`.
use vstd::prelude::*;
use vstd::string::*;

use crate::error::CpuAffinityError;

verus! {

/// The characters that `char::is_whitespace` accepts (Unicode `White_Space`).
pub open spec fn is_space(c: char) -> bool {
    ||| '\u{9}' <= c <= '\u{D}'
    ||| c == ' '
    ||| c == '\u{85}'
    ||| c == '\u{A0}'
    ||| c == '\u{1680}'
    ||| '\u{2000}' <= c <= '\u{200A}'
    ||| c == '\u{2028}'
    ||| c == '\u{2029}'
    ||| c == '\u{202F}'
    ||| c == '\u{205F}'
    ||| c == '\u{3000}'
}

/// `x` without its leading white space.
pub open spec fn trim_start(x: Seq<char>) -> Seq<char>
    decreases x.len(),
{
    if x.len() > 0 && is_space(x[0]) {
        trim_start(x.drop_first())
    } else {
        x
    }
}

/// `x` without its trailing white space.
pub open spec fn trim_end(x: Seq<char>) -> Seq<char>
    decreases x.len(),
{
    if x.len() > 0 && is_space(x.last()) {
        trim_end(x.drop_last())
    } else {
        x
    }
}

/// `x` without white space at either end.
pub open spec fn trim(x: Seq<char>) -> Seq<char> {
    trim_end(trim_start(x))
}

/// Index of the first `c` in `x`, or `x.len()` if there is none.
pub open spec fn first_index(x: Seq<char>, c: char) -> int
    decreases x.len(),
{
    if x.len() == 0 {
        0
    } else if x[0] == c {
        0
    } else {
        1 + first_index(x.drop_first(), c)
    }
}

pub open spec fn is_digit(c: char) -> bool {
    '0' <= c <= '9'
}

pub open spec fn digit_value(c: char) -> nat {
    (c as int - '0' as int) as nat
}

/// The number that the decimal digits `x` denote.
pub open spec fn digits_value(x: Seq<char>) -> nat
    decreases x.len(),
{
    if x.len() == 0 {
        0
    } else {
        digits_value(x.drop_last()) * 10 + digit_value(x.last())
    }
}

pub open spec fn all_digits(x: Seq<char>) -> bool {
    forall|i: int| 0 <= i < x.len() ==> is_digit(#[trigger] x[i])
}

/// What `usize::from_str` gives: an optional `+`, then one or more decimal
/// digits whose value fits in a `usize`.
pub open spec fn parse_uint(x: Seq<char>) -> Option<usize> {
    let d = if x.len() > 0 && x[0] == '+' { x.drop_first() } else { x };
    if d.len() > 0 && all_digits(d) && digits_value(d) <= usize::MAX {
        Some(digits_value(d) as usize)
    } else {
        None
    }
}

/// The characters of `s`, one per element.
pub(crate) fn chars_of(s: &str) -> (r: Vec<char>)
    ensures
        r@ == s@,
{
    let n = s.unicode_len();
    let mut r: Vec<char> = Vec::new();
    let mut i: usize = 0;
    while i < n
        invariant
            n == s@.len(),
            i <= n,
            r@ == s@.subrange(0, i as int),
        decreases n - i,
    {
        r.push(s.get_char(i));
        i += 1;
    }
    assert(r@ =~= s@);
    r
}

/// Whether `c` is white space, as `char::is_whitespace` decides.
pub fn is_space_char(c: char) -> (r: bool)
    ensures
        r == is_space(c),
{
    ('\u{9}' <= c && c <= '\u{D}') || c == ' ' || c == '\u{85}' || c == '\u{A0}' || c == '\u{1680}'
        || ('\u{2000}' <= c && c <= '\u{200A}') || c == '\u{2028}' || c == '\u{2029}' || c
        == '\u{202F}' || c == '\u{205F}' || c == '\u{3000}'
}

/// The bounds of `cs[lo..hi]` with white space cut from both ends.
pub(crate) fn trim_bounds(cs: &Vec<char>, lo: usize, hi: usize) -> (r: (usize, usize))
    requires
        lo <= hi <= cs@.len(),
    ensures
        lo <= r.0 <= r.1 <= hi,
        cs@.subrange(r.0 as int, r.1 as int) == trim(cs@.subrange(lo as int, hi as int)),
{
    let mut a = lo;
    while a < hi && is_space_char(cs[a])
        invariant
            lo <= a <= hi <= cs@.len(),
            trim_start(cs@.subrange(lo as int, hi as int)) == trim_start(
                cs@.subrange(a as int, hi as int),
            ),
        decreases hi - a,
    {
        assert(cs@.subrange(a as int, hi as int).drop_first() =~= cs@.subrange(
            a + 1,
            hi as int,
        ));
        a += 1;
    }
    let mut b = hi;
    while b > a && is_space_char(cs[b - 1])
        invariant
            lo <= a <= b <= hi <= cs@.len(),
            trim_end(cs@.subrange(a as int, hi as int)) == trim_end(
                cs@.subrange(a as int, b as int),
            ),
        decreases b - a,
    {
        assert(cs@.subrange(a as int, b as int).drop_last() =~= cs@.subrange(
            a as int,
            b - 1,
        ));
        b -= 1;
    }
    (a, b)
}

/// The index of the first `c` in `cs[lo..hi]`, or `hi` if there is none.
pub(crate) fn find_char(cs: &Vec<char>, c: char, lo: usize, hi: usize) -> (k: usize)
    requires
        lo <= hi <= cs@.len(),
    ensures
        lo <= k <= hi,
        k - lo == first_index(cs@.subrange(lo as int, hi as int), c),
        k < hi ==> cs@[k as int] == c,
{
    let mut k = lo;
    while k < hi && cs[k] != c
        invariant
            lo <= k <= hi <= cs@.len(),
            first_index(cs@.subrange(lo as int, hi as int), c) == (k - lo) + first_index(
                cs@.subrange(k as int, hi as int),
                c,
            ),
        decreases hi - k,
    {
        assert(cs@.subrange(k as int, hi as int).drop_first() =~= cs@.subrange(
            k + 1,
            hi as int,
        ));
        k += 1;
    }
    k
}

/// The value of the decimal number in `cs[lo..hi]`, as `usize::from_str` reads it.
pub(crate) fn parse_uint_at(cs: &Vec<char>, lo: usize, hi: usize) -> (r: Option<usize>)
    requires
        lo <= hi <= cs@.len(),
    ensures
        r == parse_uint(cs@.subrange(lo as int, hi as int)),
{
    let ghost x = cs@.subrange(lo as int, hi as int);
    let mut i = lo;
    if i < hi && cs[i] == '+' {
        i += 1;
    }
    let ghost d = cs@.subrange(i as int, hi as int);
    assert(d == (if x.len() > 0 && x[0] == '+' { x.drop_first() } else { x }));
    if i == hi {
        return None;
    }
    let start = i;
    let mut value: usize = 0;
    let mut too_large = false;
    while i < hi
        invariant
            lo <= start <= i <= hi <= cs@.len(),
            d == cs@.subrange(start as int, hi as int),
            x == cs@.subrange(lo as int, hi as int),
            d == (if x.len() > 0 && x[0] == '+' { x.drop_first() } else { x }),
            all_digits(cs@.subrange(start as int, i as int)),
            too_large ==> digits_value(cs@.subrange(start as int, i as int)) > usize::MAX,
            !too_large ==> value == digits_value(cs@.subrange(start as int, i as int)),
        decreases hi - i,
    {
        let c = cs[i];
        if !('0' <= c && c <= '9') {
            assert(d[i - start] == c);
            assert(!all_digits(d));
            return None;
        }
        let ghost p = cs@.subrange(start as int, i + 1);
        assert(p.drop_last() =~= cs@.subrange(start as int, i as int));
        assert(p.last() == c);
        let digit = (c as u32 - '0' as u32) as usize;
        if !too_large {
            if value > (usize::MAX - digit) / 10 {
                assert(value * 10 + digit > usize::MAX) by (nonlinear_arith)
                    requires
                        value > (usize::MAX - digit) / 10,
                        digit <= 9,
                ;
                too_large = true;
            } else {
                value = value * 10 + digit;
            }
        }
        i += 1;
    }
    assert(cs@.subrange(start as int, i as int) =~= d);
    if too_large {
        None
    } else {
        Some(value)
    }
}


/// The integers from `a` to `b`, both included; empty when `a > b`.
pub open spec fn range_set(a: int, b: int) -> Set<int> {
    Set::new(|x: int| a <= x <= b)
}

/// The CPU IDs that a trimmed, non-empty token denotes: `n` or `start-end`
/// (white space allowed around the dash), or `None` where it is malformed.
pub open spec fn token_ids(tok: Seq<char>) -> Option<Set<int>> {
    let d = first_index(tok, '-');
    if d < tok.len() {
        match (
            parse_uint(trim(tok.subrange(0, d))),
            parse_uint(trim(tok.subrange(d + 1, tok.len() as int))),
        ) {
            (Some(a), Some(b)) => Some(range_set(a as int, b as int)),
            _ => None,
        }
    } else {
        match parse_uint(tok) {
            Some(a) => Some(set![a as int]),
            None => None,
        }
    }
}

/// A trimmed token read on its own: empty tokens denote no CPU, a malformed
/// one is the error.
pub open spec fn token_result(tok: Seq<char>) -> Result<Set<int>, Seq<char>> {
    if tok.len() == 0 {
        Ok(Set::empty())
    } else {
        match token_ids(tok) {
            Some(t) => Ok(t),
            None => Err(tok),
        }
    }
}

/// The union of two readings, or the first error met from the left.
pub open spec fn join_results(
    a: Result<Set<int>, Seq<char>>,
    b: Result<Set<int>, Seq<char>>,
) -> Result<Set<int>, Seq<char>> {
    match a {
        Err(e) => Err(e),
        Ok(x) => match b {
            Err(e) => Err(e),
            Ok(y) => Ok(x.union(y)),
        },
    }
}

/// The set of CPU IDs that range-list text denotes, or the first malformed
/// (trimmed) token.
pub open spec fn range_list_ids(x: Seq<char>) -> Result<Set<int>, Seq<char>>
    decreases x.len(),
{
    let k = first_index(x, ',');
    if 0 <= k < x.len() {
        join_results(
            token_result(trim(x.subrange(0, k))),
            range_list_ids(x.subrange(k + 1, x.len() as int)),
        )
    } else {
        token_result(trim(x))
    }
}

/// The detail text of the error for a malformed token.
pub open spec fn parse_error_text(tok: Seq<char>) -> Seq<char> {
    if first_index(tok, '-') < tok.len() {
        "Invalid CPU range: "@ + tok
    } else {
        "Invalid CPU ID: "@ + tok
    }
}

/// Strictly ascending: sorted, with no duplicates.
pub open spec fn ascending(v: Seq<usize>) -> bool {
    forall|i: int, j: int| 0 <= i < j < v.len() ==> v[i] < v[j]
}

/// The CPU IDs held in `v`.
pub open spec fn id_set(v: Seq<usize>) -> Set<int> {
    Set::new(|x: int| exists|i: int| 0 <= i < v.len() && v[i] as int == x)
}

/// Adds `x` to the ascending list `v`, keeping it ascending.
pub fn insert_sorted(v: &mut Vec<usize>, x: usize)
    requires
        ascending(old(v)@),
    ensures
        ascending(final(v)@),
        id_set(final(v)@) == id_set(old(v)@).insert(x as int),
{
    let ghost w = v@;
    let n = v.len();
    if n == 0 || v[n - 1] < x {
        v.push(x);
        assert forall|y: int| #[trigger]
            id_set(v@).contains(y) == id_set(w).insert(x as int).contains(y) by {
            if id_set(w).contains(y) {
                let i = choose|i: int| 0 <= i < w.len() && w[i] as int == y;
                assert(v@[i] == w[i]);
            }
            if y == x {
                assert(v@[n as int] == x);
            }
        }
        assert(id_set(v@) =~= id_set(w).insert(x as int));
        return ;
    }
    let mut p: usize = 0;
    while p < n && v[p] < x
        invariant
            p <= n == v@.len(),
            v@ == w,
            forall|j: int| 0 <= j < p ==> w[j] < x,
        decreases n - p,
    {
        p += 1;
    }
    if p < n && v[p] == x {
        assert(id_set(w).contains(x as int));
        assert(id_set(w) =~= id_set(w).insert(x as int));
        return ;
    }
    assert(p < n);
    v.insert(p, x);
    assert forall|y: int| #[trigger]
        id_set(v@).contains(y) == id_set(w).insert(x as int).contains(y) by {
        if id_set(w).contains(y) {
            let i = choose|i: int| 0 <= i < w.len() && w[i] as int == y;
            if i < p {
                assert(v@[i] == w[i]);
            } else {
                assert(v@[i + 1] == w[i]);
            }
        }
        if y == x {
            assert(v@[p as int] == x);
        }
        if id_set(v@).contains(y) {
            let i = choose|i: int| 0 <= i < v@.len() && v@[i] as int == y;
            if i < p {
                assert(v@[i] == w[i]);
            } else if i > p {
                assert(v@[i] == w[i - 1]);
            }
        }
    }
    assert(id_set(v@) =~= id_set(w).insert(x as int));
}

/// Adds every ID from `lo` to `hi` to the ascending list `v`.
fn insert_range(v: &mut Vec<usize>, lo: usize, hi: usize)
    requires
        ascending(old(v)@),
    ensures
        ascending(final(v)@),
        id_set(final(v)@) == id_set(old(v)@).union(range_set(lo as int, hi as int)),
{
    if lo > hi {
        assert(id_set(v@) =~= id_set(v@).union(range_set(lo as int, hi as int)));
        return ;
    }
    let ghost w = v@;
    let mut x = lo;
    loop
        invariant_except_break
            lo <= x <= hi,
            ascending(v@),
            id_set(v@) == id_set(w).union(range_set(lo as int, x - 1)),
        ensures
            ascending(v@),
            id_set(v@) == id_set(w).union(range_set(lo as int, hi as int)),
        decreases hi - x,
    {
        insert_sorted(v, x);
        assert(id_set(w).union(range_set(lo as int, x - 1)).insert(x as int) =~= id_set(w).union(
            range_set(lo as int, x as int),
        ));
        if x == hi {
            break;
        }
        x += 1;
    }
}

/// The parse error for the token `s[a..b]`, its detail text being `prefix`
/// followed by the token.
pub(crate) fn token_error(prefix: &str, s: &str, a: usize, b: usize) -> (e: CpuAffinityError)
    requires
        a <= b <= s@.len(),
    ensures
        e matches CpuAffinityError::ParseError(m) && m@ == prefix@ + s@.subrange(a as int, b as int),
{
    let mut m = String::from_str(prefix);
    m.append(s.substring_char(a, b));
    CpuAffinityError::ParseError(m)
}

/// Adds the IDs of the trimmed token `s[a..b]` to the ascending list `v`.
fn add_token(s: &str, cs: &Vec<char>, a: usize, b: usize, v: &mut Vec<usize>) -> (r: Result<
    (),
    CpuAffinityError,
>)
    requires
        cs@ == s@,
        a <= b <= cs@.len(),
        ascending(old(v)@),
    ensures
        ascending(final(v)@),
        match token_result(s@.subrange(a as int, b as int)) {
            Ok(t) => r is Ok && id_set(final(v)@) == id_set(old(v)@).union(t),
            Err(tok) => r matches Err(CpuAffinityError::ParseError(m)) && m@ == parse_error_text(
                tok,
            ),
        },
{
    let ghost tok = s@.subrange(a as int, b as int);
    if a == b {
        assert(id_set(v@) =~= id_set(v@).union(Set::empty()));
        return Ok(());
    }
    let d = find_char(cs, '-', a, b);
    assert(cs@.subrange(a as int, b as int) == tok);
    if d < b {
        assert(tok.subrange(0, d - a) =~= cs@.subrange(a as int, d as int));
        assert(tok.subrange(d - a + 1, tok.len() as int) =~= cs@.subrange(d + 1, b as int));
        let (l1, l2) = trim_bounds(cs, a, d);
        let (r1, r2) = trim_bounds(cs, d + 1, b);
        let first = parse_uint_at(cs, l1, l2);
        let last = parse_uint_at(cs, r1, r2);
        match (first, last) {
            (Some(x), Some(y)) => {
                insert_range(v, x, y);
                Ok(())
            },
            _ => Err(token_error("Invalid CPU range: ", s, a, b)),
        }
    } else {
        match parse_uint_at(cs, a, b) {
            Some(x) => {
                insert_sorted(v, x);
                assert(id_set(old(v)@).insert(x as int) =~= id_set(old(v)@).union(set![x as int]));
                Ok(())
            },
            None => Err(token_error("Invalid CPU ID: ", s, a, b)),
        }
    }
}

/// Parses CPU range-list text such as `"0-3,5,7-9"` into the ascending list
/// of the CPU IDs it denotes.
///
/// Tokens are separated by commas; white space around a token or around its
/// dash is ignored, and empty tokens are skipped. A range whose start is above
/// its end denotes no CPU. Duplicates are removed. A malformed token gives
/// `ParseError`, whose text names the token.
pub fn parse_cpu_range_list(s: &str) -> (r: Result<Vec<usize>, CpuAffinityError>)
    ensures
        r is Ok <==> range_list_ids(s@) is Ok,
        r matches Ok(v) ==> ascending(v@) && id_set(v@) == range_list_ids(s@)->Ok_0,
        r matches Err(e) ==> e matches CpuAffinityError::ParseError(m) && m@ == parse_error_text(
            range_list_ids(s@)->Err_0,
        ),
{
    let cs = chars_of(s);
    let n = cs.len();
    let mut out: Vec<usize> = Vec::new();
    let mut pos: usize = 0;
    assert(id_set(out@) =~= Set::empty());
    assert(cs@.subrange(0, n as int) =~= cs@);
    proof {
        match range_list_ids(s@) {
            Ok(y) => {
                assert(Set::<int>::empty().union(y) =~= y);
            },
            Err(_) => {},
        }
    }
    loop
        invariant
            cs@ == s@,
            n == cs@.len(),
            pos <= n,
            ascending(out@),
            range_list_ids(s@) == join_results(
                Ok(id_set(out@)),
                range_list_ids(cs@.subrange(pos as int, n as int)),
            ),
        decreases n - pos,
    {
        let ghost rest = cs@.subrange(pos as int, n as int);
        let ghost before = id_set(out@);
        let k = find_char(&cs, ',', pos, n);
        let (a, b) = trim_bounds(&cs, pos, k);
        let ghost tok = cs@.subrange(a as int, b as int);
        let ghost tail = if k < n {
            cs@.subrange(k + 1, n as int)
        } else {
            Seq::empty()
        };
        if k < n {
            assert(rest.subrange(0, k - pos) =~= cs@.subrange(pos as int, k as int));
            assert(rest.subrange(k - pos + 1, rest.len() as int) =~= tail);
            assert(range_list_ids(rest) == join_results(token_result(tok), range_list_ids(tail)));
        } else {
            assert(rest =~= cs@.subrange(pos as int, k as int));
            assert(range_list_ids(rest) == token_result(tok));
        }
        let added = add_token(s, &cs, a, b, &mut out);
        match added {
            Err(e) => {
                return Err(e);
            },
            Ok(()) => {},
        }
        if k == n {
            return Ok(out);
        }
        proof {
            let t = token_result(tok)->Ok_0;
            match range_list_ids(tail) {
                Ok(y) => {
                    assert(before.union(t.union(y)) =~= before.union(t).union(y));
                },
                Err(_) => {},
            }
        }
        pos = k + 1;
    }
}

/// The decimal digit character for `d < 10`.
pub open spec fn digit_char(d: nat) -> char {
    if d == 0 {
        '0'
    } else if d == 1 {
        '1'
    } else if d == 2 {
        '2'
    } else if d == 3 {
        '3'
    } else if d == 4 {
        '4'
    } else if d == 5 {
        '5'
    } else if d == 6 {
        '6'
    } else if d == 7 {
        '7'
    } else if d == 8 {
        '8'
    } else {
        '9'
    }
}

/// The decimal text of `n`, without leading zeros.
pub open spec fn decimal(n: nat) -> Seq<char>
    decreases n,
{
    if n < 10 {
        seq![digit_char(n)]
    } else {
        decimal(n / 10).push(digit_char(n % 10))
    }
}

/// The canonical range-list text of `v`: each ID in decimal, separated by commas.
pub open spec fn format_ids(v: Seq<usize>) -> Seq<char>
    decreases v.len(),
{
    if v.len() == 0 {
        Seq::empty()
    } else if v.len() == 1 {
        decimal(v[0] as nat)
    } else {
        decimal(v[0] as nat) + seq![','] + format_ids(v.drop_first())
    }
}

/// What remains of `format_ids(v)` once the IDs before `i` are written.
spec fn format_rest(v: Seq<usize>, i: int) -> Seq<char> {
    if i == 0 {
        format_ids(v)
    } else if i < v.len() {
        seq![','] + format_ids(v.subrange(i, v.len() as int))
    } else {
        Seq::empty()
    }
}

/// The one-character text of the digit `d`.
fn digit_text(d: usize) -> (r: &'static str)
    requires
        d < 10,
    ensures
        r@ == seq![digit_char(d as nat)],
{
    proof {
        reveal_strlit("0");
        reveal_strlit("1");
        reveal_strlit("2");
        reveal_strlit("3");
        reveal_strlit("4");
        reveal_strlit("5");
        reveal_strlit("6");
        reveal_strlit("7");
        reveal_strlit("8");
        reveal_strlit("9");
    }
    let r = if d == 0 {
        "0"
    } else if d == 1 {
        "1"
    } else if d == 2 {
        "2"
    } else if d == 3 {
        "3"
    } else if d == 4 {
        "4"
    } else if d == 5 {
        "5"
    } else if d == 6 {
        "6"
    } else if d == 7 {
        "7"
    } else if d == 8 {
        "8"
    } else {
        "9"
    };
    assert(r@ =~= seq![digit_char(d as nat)]);
    r
}

/// Appends the decimal text of `n` to `out`.
pub(crate) fn append_decimal(out: &mut String, n: usize)
    ensures
        final(out)@ == old(out)@ + decimal(n as nat),
    decreases n,
{
    if n >= 10 {
        append_decimal(out, n / 10);
    }
    out.append(digit_text(n % 10));
    proof {
        if n >= 10 {
            assert(old(out)@ + decimal(n as nat) =~= old(out)@ + decimal((n / 10) as nat) + seq![
                digit_char((n % 10) as nat),
            ]);
        } else {
            assert(n % 10 == n);
        }
    }
}

/// The canonical range-list text of `ids`: each ID in decimal, separated by
/// commas (`[0, 2, 5]` gives `"0,2,5"`).
pub fn format_cpu_range_list(ids: &[usize]) -> (r: String)
    ensures
        r@ == format_ids(ids@),
{
    let mut out = String::new();
    let n = ids.len();
    let mut i: usize = 0;
    assert(out@ + format_rest(ids@, 0) =~= format_ids(ids@));
    while i < n
        invariant
            n == ids@.len(),
            i <= n,
            out@ + format_rest(ids@, i as int) == format_ids(ids@),
        decreases n - i,
    {
        let ghost before = out@;
        let ghost tail = ids@.subrange(i as int, n as int);
        if i > 0 {
            out.append(",");
            proof {
                reveal_strlit(",");
            }
        }
        append_decimal(&mut out, ids[i]);
        proof {
            assert(tail[0] == ids@[i as int]);
            assert(tail.drop_first() =~= ids@.subrange(i + 1, n as int));
            if i == 0 {
                assert(tail =~= ids@);
                if n == 1 {
                    assert(out@ =~= before + format_ids(ids@));
                } else {
                    assert(out@ + format_rest(ids@, 1) =~= before + format_ids(ids@));
                }
            } else {
                if i + 1 < n {
                    assert(out@ + format_rest(ids@, i + 1) =~= before + format_rest(ids@, i as int));
                } else {
                    assert(out@ + format_rest(ids@, i + 1) =~= before + format_rest(ids@, i as int));
                }
            }
        }
        i += 1;
    }
    assert(out@ =~= format_ids(ids@));
    out
}

proof fn lemma_digit_char(d: nat)
    requires
        d < 10,
    ensures
        is_digit(digit_char(d)),
        digit_value(digit_char(d)) == d,
{
}

proof fn lemma_decimal(n: nat)
    ensures
        decimal(n).len() > 0,
        all_digits(decimal(n)),
        digits_value(decimal(n)) == n,
    decreases n,
{
    let d = decimal(n);
    if n < 10 {
        lemma_digit_char(n);
        assert(d.drop_last() =~= Seq::<char>::empty());
        assert(d.last() == digit_char(n));
        assert(digits_value(d) == digits_value(d.drop_last()) * 10 + digit_value(d.last()));
    } else {
        lemma_decimal(n / 10);
        lemma_digit_char(n % 10);
        assert(d.drop_last() =~= decimal(n / 10));
        assert((n / 10) * 10 + n % 10 == n);
        assert(d.last() == digit_char(n % 10));
        assert(digits_value(d) == digits_value(decimal(n / 10)) * 10 + digit_value(d.last()));
        assert forall|i: int| 0 <= i < d.len() implies is_digit(#[trigger] d[i]) by {
            if i < d.len() - 1 {
                assert(d[i] == decimal(n / 10)[i]);
            }
        }
    }
}

proof fn lemma_first_index_absent(x: Seq<char>, c: char)
    requires
        forall|i: int| 0 <= i < x.len() ==> x[i] != c,
    ensures
        first_index(x, c) == x.len(),
    decreases x.len(),
{
    if x.len() > 0 {
        lemma_first_index_absent(x.drop_first(), c);
    }
}

proof fn lemma_first_index_split(a: Seq<char>, c: char, b: Seq<char>)
    requires
        forall|i: int| 0 <= i < a.len() ==> a[i] != c,
    ensures
        first_index(a + seq![c] + b, c) == a.len(),
    decreases a.len(),
{
    let x = a + seq![c] + b;
    if a.len() > 0 {
        assert(x.drop_first() =~= a.drop_first() + seq![c] + b);
        lemma_first_index_split(a.drop_first(), c, b);
    } else {
        assert(x[0] == c);
    }
}

/// The token that a decimal number forms reads back as that number.
proof fn lemma_decimal_token(n: usize)
    ensures
        token_result(trim(decimal(n as nat))) == Ok::<Set<int>, Seq<char>>(set![n as int]),
        forall|i: int| 0 <= i < decimal(n as nat).len() ==> #[trigger] decimal(n as nat)[i] != ',',
{
    let d = decimal(n as nat);
    lemma_decimal(n as nat);
    assert(is_digit(d[0]));
    assert(is_digit(d.last()));
    assert(trim_start(d) == d);
    assert(trim(d) == d);
    assert forall|i: int| 0 <= i < d.len() implies d[i] != '-' && d[i] != ',' by {
        assert(is_digit(d[i]));
    }
    lemma_first_index_absent(d, '-');
}

proof fn lemma_id_set_cons(v: Seq<usize>)
    requires
        v.len() > 0,
    ensures
        id_set(v) == set![v[0] as int].union(id_set(v.drop_first())),
{
    let rest = v.drop_first();
    assert forall|y: int| #[trigger]
        id_set(v).contains(y) == set![v[0] as int].union(id_set(rest)).contains(y) by {
        if id_set(v).contains(y) && y != v[0] {
            let k = choose|k: int| 0 <= k < v.len() && v[k] as int == y;
            assert(rest[k - 1] == v[k]);
        }
        if id_set(rest).contains(y) {
            let k = choose|k: int| 0 <= k < rest.len() && rest[k] as int == y;
            assert(v[k + 1] == rest[k]);
        }
        if y == v[0] {
            assert(v[0] as int == y);
        }
    }
    assert(id_set(v) =~= set![v[0] as int].union(id_set(rest)));
}

/// A first token without commas, then a comma, then the rest.
proof fn lemma_range_list_cons(d: Seq<char>, r: Seq<char>)
    requires
        forall|i: int| 0 <= i < d.len() ==> d[i] != ',',
    ensures
        range_list_ids(d + seq![','] + r) == join_results(
            token_result(trim(d)),
            range_list_ids(r),
        ),
{
    let x = d + seq![','] + r;
    lemma_first_index_split(d, ',', r);
    assert(x.subrange(0, d.len() as int) =~= d);
    assert(x.subrange(d.len() as int + 1, x.len() as int) =~= r);
}

/// Reading the canonical text of `v` gives the IDs of `v`.
pub proof fn lemma_format_round_trip(v: Seq<usize>)
    ensures
        range_list_ids(format_ids(v)) == Ok::<Set<int>, Seq<char>>(id_set(v)),
    decreases v.len(),
{
    let x = format_ids(v);
    if v.len() == 0 {
        assert(trim_start(x) == x);
        assert(id_set(v) =~= Set::<int>::empty());
    } else {
        let d = decimal(v[0] as nat);
        lemma_decimal_token(v[0]);
        lemma_id_set_cons(v);
        if v.len() == 1 {
            lemma_first_index_absent(d, ',');
            assert(id_set(v.drop_first()) =~= Set::<int>::empty());
            assert(id_set(v) =~= set![v[0] as int]);
        } else {
            let rest = v.drop_first();
            lemma_format_round_trip(rest);
            lemma_range_list_cons(d, format_ids(rest));
        }
    }
}

/// Range-list reading is idempotent on its canonical output: where `s` reads
/// as the ascending list `v`, the canonical text of `v` reads the same as `s`.
pub proof fn lemma_range_list_idempotent(s: Seq<char>, v: Seq<usize>)
    requires
        range_list_ids(s) is Ok,
        ascending(v),
        id_set(v) == range_list_ids(s)->Ok_0,
    ensures
        range_list_ids(format_ids(v)) == range_list_ids(s),
{
    lemma_format_round_trip(v);
}

} // verus!
