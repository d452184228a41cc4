//! Character-level string operations with their specifications.
//!
//! Strings are handled as `Vec<char>` in executable code and as `Seq<char>` in
//! specifications; every operation below states its result over `Seq<char>`.
use vstd::prelude::*;

verus! {

// ---------------------------------------------------------------------------
// Conversions between `str`/`String` and `Vec<char>`
// ---------------------------------------------------------------------------

/// The characters of `s`, in order.
pub fn chars_of(s: &str) -> (res: Vec<char>)
    ensures
        res@ == s@,
{
    let mut res: Vec<char> = Vec::new();
    for c in it: s.chars()
        invariant
            res@ == it.seq().take(it.index() as int),
    {
        res.push(c);
    }
    res
}

/// Builds a `String` from characters with `String::from_iter`, which keeps
/// the characters and their order.
#[verifier::external_body]
pub(crate) fn string_of(chars: &Vec<char>) -> (res: String)
    ensures
        res@ == chars@,
{
    String::from_iter(chars.iter())
}

/// Copies `s`.
pub fn copy_string(s: &String) -> (res: String)
    ensures
        res@ == s@,
{
    s.clone()
}

/// Copies the characters `v[lo..hi]`.
pub fn slice_chars(v: &Vec<char>, lo: usize, hi: usize) -> (res: Vec<char>)
    requires
        lo <= hi <= v.len(),
    ensures
        res@ == v@.subrange(lo as int, hi as int),
{
    let mut res: Vec<char> = Vec::new();
    let mut i = lo;
    while i < hi
        invariant
            lo <= i <= hi <= v.len(),
            res@ == v@.subrange(lo as int, i as int),
        decreases hi - i,
    {
        res.push(v[i]);
        i += 1;
        assert(res@ =~= v@.subrange(lo as int, i as int));
    }
    res
}

/// Appends the characters of `tail` to `v`.
pub fn push_all(v: &mut Vec<char>, tail: &Vec<char>)
    ensures
        final(v)@ == old(v)@ + tail@,
{
    let ghost start = v@;
    let mut i: usize = 0;
    while i < tail.len()
        invariant
            i <= tail.len(),
            v@ == start + tail@.take(i as int),
        decreases tail.len() - i,
    {
        v.push(tail[i]);
        i += 1;
        assert(v@ =~= start + tail@.take(i as int));
    }
    assert(tail@.take(tail@.len() as int) =~= tail@);
}

/// `a` followed by `b`.
pub fn concat(a: &Vec<char>, b: &Vec<char>) -> (res: Vec<char>)
    ensures
        res@ == a@ + b@,
{
    let mut res = slice_chars(a, 0, a.len());
    assert(a@.subrange(0, a@.len() as int) =~= a@);
    push_all(&mut res, b);
    res
}

/// Whether two character sequences are equal.
pub fn chars_eq(a: &Vec<char>, b: &Vec<char>) -> (res: bool)
    ensures
        res == (a@ == b@),
{
    if a.len() != b.len() {
        return false;
    }
    let mut i: usize = 0;
    while i < a.len()
        invariant
            i <= a.len() == b.len(),
            forall|j: int| 0 <= j < i ==> a@[j] == b@[j],
        decreases a.len() - i,
    {
        if a[i] != b[i] {
            return false;
        }
        i += 1;
    }
    assert(a@ =~= b@);
    true
}

// ---------------------------------------------------------------------------
// Whitespace and trimming (`str::trim`)
// ---------------------------------------------------------------------------

/// `char::is_whitespace`: the characters with the Unicode `White_Space` property.
pub open spec fn is_ws(c: char) -> bool {
    let u = c as u32;
    ||| 0x09 <= u <= 0x0D
    ||| u == 0x20
    ||| u == 0x85
    ||| u == 0xA0
    ||| u == 0x1680
    ||| 0x2000 <= u <= 0x200A
    ||| u == 0x2028
    ||| u == 0x2029
    ||| u == 0x202F
    ||| u == 0x205F
    ||| u == 0x3000
}

/// Executable `char::is_whitespace`.
pub fn is_whitespace(c: char) -> (res: bool)
    ensures
        res == is_ws(c),
{
    let u = c as u32;
    (0x09 <= u && u <= 0x0D) || u == 0x20 || u == 0x85 || u == 0xA0 || u == 0x1680 || (0x2000
        <= u && u <= 0x200A) || u == 0x2028 || u == 0x2029 || u == 0x202F || u == 0x205F || u
        == 0x3000
}

/// `s` without its leading whitespace.
pub open spec fn trim_start(s: Seq<char>) -> Seq<char>
    decreases s.len(),
{
    if s.len() > 0 && is_ws(s[0]) {
        trim_start(s.drop_first())
    } else {
        s
    }
}

/// `s` without its trailing whitespace.
pub open spec fn trim_end(s: Seq<char>) -> Seq<char>
    decreases s.len(),
{
    if s.len() > 0 && is_ws(s.last()) {
        trim_end(s.drop_last())
    } else {
        s
    }
}

/// `str::trim`: `s` without leading and trailing whitespace.
pub open spec fn trim(s: Seq<char>) -> Seq<char> {
    trim_end(trim_start(s))
}

/// Executable `str::trim`.
pub fn trim_chars(v: &Vec<char>) -> (res: Vec<char>)
    ensures
        res@ == trim(v@),
{
    let mut lo: usize = 0;
    assert(v@.skip(0) =~= v@);
    while lo < v.len() && is_whitespace(v[lo])
        invariant
            lo <= v.len(),
            trim_start(v@.skip(lo as int)) == trim_start(v@),
        decreases v.len() - lo,
    {
        assert(v@.skip(lo as int).drop_first() =~= v@.skip(lo + 1));
        lo += 1;
    }
    assert(trim_start(v@) == v@.skip(lo as int));
    let mut hi: usize = v.len();
    assert(v@.skip(lo as int) =~= v@.subrange(lo as int, hi as int));
    while hi > lo && is_whitespace(v[hi - 1])
        invariant
            lo <= hi <= v.len(),
            trim_end(v@.subrange(lo as int, hi as int)) == trim(v@),
        decreases hi - lo,
    {
        assert(v@.subrange(lo as int, hi as int).drop_last() =~= v@.subrange(
            lo as int,
            hi - 1,
        ));
        hi -= 1;
    }
    slice_chars(v, lo, hi)
}

// ---------------------------------------------------------------------------
// Prefixes, searching, splitting and replacing
// ---------------------------------------------------------------------------

/// `p` occurs in `s` at position `i`.
pub open spec fn occurs_at(s: Seq<char>, p: Seq<char>, i: int) -> bool {
    0 <= i && i + p.len() <= s.len() && s.subrange(i, i + p.len()) == p
}

/// The leftmost position at or after `i` where `p` occurs in `s` (`str::find`
/// from `i`).
pub open spec fn find_from(s: Seq<char>, p: Seq<char>, i: int) -> Option<int>
    decreases s.len() + 1 - i,
{
    if i < 0 || i > s.len() {
        None
    } else if occurs_at(s, p, i) {
        Some(i)
    } else {
        find_from(s, p, i + 1)
    }
}

/// `str::find`: the leftmost position where `p` occurs in `s`.
pub open spec fn find(s: Seq<char>, p: Seq<char>) -> Option<int> {
    find_from(s, p, 0)
}

/// `str::contains`.
pub open spec fn contains(s: Seq<char>, p: Seq<char>) -> bool {
    find(s, p) is Some
}

/// `s.split(p).next()`: the part of `s` before the first occurrence of `p`.
pub open spec fn before_first(s: Seq<char>, p: Seq<char>) -> Seq<char> {
    match find(s, p) {
        Some(i) => s.take(i),
        None => s,
    }
}

/// `s.split(p).nth(1)`: the part of `s` between the first and the second
/// occurrence of `p`, or after the first when there is no second.
pub open spec fn second_piece(s: Seq<char>, p: Seq<char>) -> Option<Seq<char>> {
    match find(s, p) {
        Some(i) => Some(before_first(s.skip(i + p.len()), p)),
        None => None,
    }
}

/// `str::trim_start_matches` with a non-empty pattern: every leading
/// repetition of `p` removed.
pub open spec fn trim_start_matches(s: Seq<char>, p: Seq<char>) -> Seq<char>
    decreases s.len(),
{
    if p.len() > 0 && p.is_prefix_of(s) {
        trim_start_matches(s.skip(p.len() as int), p)
    } else {
        s
    }
}

/// `str::replace` with a non-empty pattern, scanning from position `i`: the
/// occurrences of `p` are found left to right without overlap and each is
/// replaced by `r`.
pub open spec fn replace_from(s: Seq<char>, p: Seq<char>, r: Seq<char>, i: int) -> Seq<char>
    decreases s.len() - i,
{
    if i < 0 || i >= s.len() || p.len() == 0 {
        s.skip(i)
    } else if occurs_at(s, p, i) {
        r + replace_from(s, p, r, i + p.len())
    } else {
        seq![s[i]] + replace_from(s, p, r, i + 1)
    }
}

/// `str::replace(p, r)` for a non-empty pattern `p`.
pub open spec fn replace_all(s: Seq<char>, p: Seq<char>, r: Seq<char>) -> Seq<char> {
    replace_from(s, p, r, 0)
}

/// Whether `p` is a prefix of `s` (`str::starts_with`).
pub fn starts_with(s: &Vec<char>, p: &Vec<char>) -> (res: bool)
    ensures
        res == p@.is_prefix_of(s@),
{
    occurs_at_exec(s, p, 0)
}

/// Whether `p` occurs in `s` at position `i`.
pub fn occurs_at_exec(s: &Vec<char>, p: &Vec<char>, i: usize) -> (res: bool)
    ensures
        res == occurs_at(s@, p@, i as int),
        i == 0 ==> res == p@.is_prefix_of(s@),
{
    if i > s.len() || p.len() > s.len() - i {
        return false;
    }
    let mut k: usize = 0;
    while k < p.len()
        invariant
            i + p.len() <= s.len(),
            k <= p.len(),
            forall|j: int| 0 <= j < k ==> s@[i + j] == p@[j],
        decreases p.len() - k,
    {
        if s[i + k] != p[k] {
            assert(s@.subrange(i as int, i + p.len())[k as int] != p@[k as int]);
            return false;
        }
        k += 1;
    }
    assert(s@.subrange(i as int, i + p.len()) =~= p@);
    true
}

/// Executable `find_from`.
pub fn find_from_exec(s: &Vec<char>, p: &Vec<char>, from: usize) -> (res: Option<usize>)
    ensures
        res matches Some(i) ==> find_from(s@, p@, from as int) == Some(i as int),
        res is None ==> find_from(s@, p@, from as int) is None,
{
    if from > s.len() {
        return None;
    }
    let mut i = from;
    loop
        invariant
            from <= i <= s.len(),
            find_from(s@, p@, from as int) == find_from(s@, p@, i as int),
        decreases s.len() - i,
    {
        if occurs_at_exec(s, p, i) {
            return Some(i);
        }
        if i == s.len() {
            assert(find_from(s@, p@, i + 1) is None);
            return None;
        }
        i += 1;
    }
}

/// Executable `find`.
pub fn find_exec(s: &Vec<char>, p: &Vec<char>) -> (res: Option<usize>)
    ensures
        res matches Some(i) ==> find(s@, p@) == Some(i as int),
        res is None ==> find(s@, p@) is None,
{
    find_from_exec(s, p, 0)
}

/// A position returned by `find_from` is an occurrence at or after `i`.
pub proof fn lemma_find_from_occurs(s: Seq<char>, p: Seq<char>, i: int)
    ensures
        find_from(s, p, i) matches Some(k) ==> i <= k && occurs_at(s, p, k),
    decreases s.len() + 1 - i,
{
    if i < 0 || i > s.len() {
    } else if occurs_at(s, p, i) {
    } else {
        lemma_find_from_occurs(s, p, i + 1);
    }
}

/// Executable `before_first`.
pub fn before_first_exec(s: &Vec<char>, p: &Vec<char>) -> (res: Vec<char>)
    ensures
        res@ == before_first(s@, p@),
{
    proof {
        lemma_find_from_occurs(s@, p@, 0);
    }
    match find_exec(s, p) {
        Some(i) => slice_chars(s, 0, i),
        None => slice_chars(s, 0, s.len()),
    }
}

/// Executable `second_piece`.
pub fn second_piece_exec(s: &Vec<char>, p: &Vec<char>) -> (res: Option<Vec<char>>)
    ensures
        res matches Some(r) ==> second_piece(s@, p@) == Some(r@),
        res is None ==> second_piece(s@, p@) is None,
{
    proof {
        lemma_find_from_occurs(s@, p@, 0);
    }
    match find_exec(s, p) {
        Some(i) => {
            assert(occurs_at(s@, p@, i as int));
            let pl = p.len();
            let sl = s.len();
            let rest = slice_chars(s, i + pl, sl);
            assert(rest@ =~= s@.skip(i + p.len()));
            Some(before_first_exec(&rest, p))
        },
        None => None,
    }
}

/// Executable `trim_start_matches`.
pub fn trim_start_matches_exec(s: &Vec<char>, p: &Vec<char>) -> (res: Vec<char>)
    ensures
        res@ == trim_start_matches(s@, p@),
{
    if p.len() == 0 {
        return slice_chars(s, 0, s.len());
    }
    let mut lo: usize = 0;
    assert(s@.skip(0) =~= s@);
    while p.len() <= s.len() - lo && occurs_at_exec(s, p, lo)
        invariant
            lo <= s.len(),
            p.len() > 0,
            trim_start_matches(s@.skip(lo as int), p@) == trim_start_matches(s@, p@),
        decreases s.len() - lo,
    {
        assert(p@.is_prefix_of(s@.skip(lo as int))) by {
            assert(s@.skip(lo as int).subrange(0, p@.len() as int) =~= s@.subrange(
                lo as int,
                lo + p@.len(),
            ));
        }
        assert(s@.skip(lo as int).skip(p@.len() as int) =~= s@.skip(lo + p@.len()));
        lo += p.len();
    }
    assert(!p@.is_prefix_of(s@.skip(lo as int))) by {
        if p@.is_prefix_of(s@.skip(lo as int)) {
            assert(s@.skip(lo as int).subrange(0, p@.len() as int) =~= s@.subrange(
                lo as int,
                lo + p@.len(),
            ));
        }
    }
    let res = slice_chars(s, lo, s.len());
    assert(res@ =~= s@.skip(lo as int));
    res
}

/// Executable `replace_all` for a non-empty pattern.
pub fn replace_all_exec(s: &Vec<char>, p: &Vec<char>, r: &Vec<char>) -> (res: Vec<char>)
    requires
        p.len() > 0,
    ensures
        res@ == replace_all(s@, p@, r@),
{
    let mut out: Vec<char> = Vec::new();
    let mut i: usize = 0;
    while i < s.len()
        invariant
            i <= s.len(),
            p.len() > 0,
            out@ + replace_from(s@, p@, r@, i as int) == replace_all(s@, p@, r@),
        decreases s.len() - i,
    {
        if occurs_at_exec(s, p, i) {
            let ghost before = out@;
            push_all(&mut out, r);
            assert(before + (r@ + replace_from(s@, p@, r@, i + p@.len())) =~= out@
                + replace_from(s@, p@, r@, i + p@.len()));
            i += p.len();
        } else {
            let ghost before = out@;
            out.push(s[i]);
            assert(before + (seq![s@[i as int]] + replace_from(s@, p@, r@, i + 1)) =~= out@
                + replace_from(s@, p@, r@, i + 1));
            i += 1;
        }
    }
    assert(replace_from(s@, p@, r@, i as int) =~= Seq::<char>::empty());
    assert(out@ + Seq::<char>::empty() =~= out@);
    out
}

// ---------------------------------------------------------------------------
// Decimal numbers (`u32`/`i32` `FromStr`, integer `Display`)
// ---------------------------------------------------------------------------

/// `c` is one of the ASCII digits.
pub open spec fn is_digit(c: char) -> bool {
    '0' <= c <= '9'
}

/// The value of the ASCII digit `c`.
pub open spec fn digit_value(c: char) -> int {
    (c as u32) - ('0' as u32)
}

/// Every character of `s` is an ASCII digit.
pub open spec fn all_digits(s: Seq<char>) -> bool {
    forall|i: int| 0 <= i < s.len() ==> is_digit(#[trigger] s[i])
}

/// The value of the decimal numeral `s`.
pub open spec fn numeral_value(s: Seq<char>) -> nat
    decreases s.len(),
{
    if s.len() == 0 {
        0
    } else {
        (numeral_value(s.drop_last()) * 10 + digit_value(s.last())) as nat
    }
}

/// The magnitude part of an unsigned numeral: what follows an optional `+`.
pub open spec fn unsigned_digits(s: Seq<char>) -> Seq<char> {
    if s.len() > 0 && s[0] == '+' {
        s.drop_first()
    } else {
        s
    }
}

/// `u32::from_str`: an optional `+`, then one or more ASCII digits whose value
/// fits in a `u32`.
pub open spec fn parse_u32_spec(s: Seq<char>) -> Option<u32> {
    let d = unsigned_digits(s);
    if d.len() > 0 && all_digits(d) && numeral_value(d) <= u32::MAX {
        Some(numeral_value(d) as u32)
    } else {
        None
    }
}

/// `i32::from_str`: an optional `+` or `-`, then one or more ASCII digits
/// whose signed value fits in an `i32`.
pub open spec fn parse_i32_spec(s: Seq<char>) -> Option<i32> {
    let neg = s.len() > 0 && s[0] == '-';
    let d = if s.len() > 0 && (s[0] == '+' || s[0] == '-') {
        s.drop_first()
    } else {
        s
    };
    if d.len() > 0 && all_digits(d) {
        if neg && numeral_value(d) <= 0x8000_0000 {
            Some((0 - numeral_value(d)) as i32)
        } else if !neg && numeral_value(d) <= i32::MAX {
            Some(numeral_value(d) as i32)
        } else {
            None
        }
    } else {
        None
    }
}

/// A longer prefix of a numeral never has a smaller value.
pub proof fn lemma_numeral_monotone(s: Seq<char>, i: int, j: int)
    requires
        0 <= i <= j <= s.len(),
        all_digits(s),
    ensures
        numeral_value(s.take(i)) <= numeral_value(s.take(j)),
    decreases j - i,
{
    if i < j {
        lemma_numeral_monotone(s, i, j - 1);
        assert(s.take(j).drop_last() =~= s.take(j - 1));
        assert(is_digit(s[j - 1]));
    }
}

/// Executable value of the numeral `d`, or `None` when it is not a numeral or
/// exceeds `bound`.
fn numeral_up_to(d: &Vec<char>, lo: usize, bound: u64) -> (res: Option<u64>)
    requires
        lo <= d.len(),
        bound <= u32::MAX + 1,
    ensures
        ({
            let t = d@.skip(lo as int);
            match res {
                Some(v) => t.len() > 0 && all_digits(t) && numeral_value(t) == v && v <= bound,
                None => !(t.len() > 0 && all_digits(t) && numeral_value(t) <= bound),
            }
        }),
{
    let ghost t = d@.skip(lo as int);
    if lo == d.len() {
        return None;
    }
    let mut acc: u64 = 0;
    let mut i = lo;
    while i < d.len()
        invariant
            lo <= i <= d.len(),
            t == d@.skip(lo as int),
            all_digits(t.take(i - lo)),
            numeral_value(t.take(i - lo)) == acc,
            acc <= bound,
            bound <= u32::MAX + 1,
        decreases d.len() - i,
    {
        let c = d[i];
        if !('0' <= c && c <= '9') {
            assert(t[i - lo] == c);
            return None;
        }
        let dv = (c as u32 - '0' as u32) as u64;
        assert(t.take(i + 1 - lo).drop_last() =~= t.take(i - lo));
        assert(t[i - lo] == c);
        acc = acc * 10 + dv;
        i += 1;
        assert(all_digits(t.take(i - lo))) by {
            assert forall|k: int| 0 <= k < t.take(i - lo).len() implies is_digit(
                #[trigger] t.take(i - lo)[k],
            ) by {
                if k < i - 1 - lo {
                    assert(t.take(i - lo)[k] == t.take(i - 1 - lo)[k]);
                }
            }
        }
        if acc > bound {
            proof {
                if all_digits(t) {
                    lemma_numeral_monotone(t, i - lo, t.len() as int);
                    assert(t.take(t.len() as int) =~= t);
                }
            }
            return None;
        }
    }
    assert(t.take(i - lo) =~= t);
    Some(acc)
}

/// Executable `u32::from_str`.
pub fn parse_u32(s: &Vec<char>) -> (res: Option<u32>)
    ensures
        res == parse_u32_spec(s@),
{
    let lo: usize = if s.len() > 0 && s[0] == '+' {
        1
    } else {
        0
    };
    assert(s@.skip(lo as int) =~= unsigned_digits(s@));
    match numeral_up_to(s, lo, 0xFFFF_FFFF) {
        Some(v) => Some(v as u32),
        None => None,
    }
}

/// Executable `i32::from_str`.
pub fn parse_i32(s: &Vec<char>) -> (res: Option<i32>)
    ensures
        res == parse_i32_spec(s@),
{
    let neg = s.len() > 0 && s[0] == '-';
    let lo: usize = if s.len() > 0 && (s[0] == '+' || s[0] == '-') {
        1
    } else {
        0
    };
    let ghost d = if s@.len() > 0 && (s@[0] == '+' || s@[0] == '-') {
        s@.drop_first()
    } else {
        s@
    };
    assert(s@.skip(lo as int) =~= d);
    if neg {
        match numeral_up_to(s, lo, 0x8000_0000) {
            Some(v) => Some((0 - (v as i64)) as i32),
            None => None,
        }
    } else {
        match numeral_up_to(s, lo, 0x7FFF_FFFF) {
            Some(v) => Some(v as i32),
            None => None,
        }
    }
}

/// The ASCII digit for `d < 10`.
pub open spec fn digit_char(d: nat) -> char {
    ((d + ('0' as u32)) as u32) as char
}

/// The decimal representation of `n` (integer `Display`).
pub open spec fn decimal(n: nat) -> Seq<char>
    decreases n,
{
    if n < 10 {
        seq![digit_char(n)]
    } else {
        decimal(n / 10).push(digit_char(n % 10))
    }
}

/// The decimal representation of the signed `n`.
pub open spec fn signed_decimal(n: int) -> Seq<char> {
    if n < 0 {
        seq!['-'] + decimal((0 - n) as nat)
    } else {
        decimal(n as nat)
    }
}

/// Executable `decimal`.
pub fn decimal_u64(n: u64) -> (res: Vec<char>)
    ensures
        res@ == decimal(n as nat),
    decreases n,
{
    let d = (n % 10) as u32;
    let c = char_from_digit(d);
    if n < 10 {
        let mut v: Vec<char> = Vec::new();
        v.push(c);
        assert(v@ =~= seq![digit_char(n as nat)]);
        v
    } else {
        let mut v = decimal_u64(n / 10);
        v.push(c);
        v
    }
}

/// The ASCII digit character for `d < 10`.
fn char_from_digit(d: u32) -> (c: char)
    requires
        d < 10,
    ensures
        c == digit_char(d as nat),
{
    if d == 0 {
        '0'
    } else if d == 1 {
        '1'
    } else if d == 2 {
        '2'
    } else if d == 3 {
        '3'
    } else if d == 4 {
        '4'
    } else if d == 5 {
        '5'
    } else if d == 6 {
        '6'
    } else if d == 7 {
        '7'
    } else if d == 8 {
        '8'
    } else {
        '9'
    }
}

/// Executable `signed_decimal` for an `i32`.
pub fn decimal_i32(n: i32) -> (res: Vec<char>)
    ensures
        res@ == signed_decimal(n as int),
{
    if n < 0 {
        let m: u64 = (0 - (n as i64)) as u64;
        let digits = decimal_u64(m);
        let mut v: Vec<char> = Vec::new();
        v.push('-');
        push_all(&mut v, &digits);
        assert(v@ =~= seq!['-'] + decimal((0 - n) as nat));
        v
    } else {
        decimal_u64(n as u64)
    }
}

// ---------------------------------------------------------------------------
// Case mapping
// ---------------------------------------------------------------------------

/// The result of `str::to_lowercase` on `s` (Unicode lowercase mapping).
pub uninterp spec fn lowercase(s: Seq<char>) -> Seq<char>;

/// Calls `str::to_lowercase`, which gives the Unicode lowercase mapping of
/// `s` (a final sigma is mapped by its context); the result is named
/// `lowercase`.
#[verifier::external_body]
pub(crate) fn to_lowercase(s: &str) -> (res: String)
    ensures
        res@ == lowercase(s@),
{
    s.to_lowercase()
}

/// Whether `p` is a suffix of `s` (`str::ends_with`).
pub fn ends_with(s: &Vec<char>, p: &Vec<char>) -> (res: bool)
    ensures
        res == p@.is_suffix_of(s@),
{
    if p.len() > s.len() {
        return false;
    }
    let off = s.len() - p.len();
    let mut i: usize = 0;
    while i < p.len()
        invariant
            off + p.len() == s.len(),
            i <= p.len(),
            forall|j: int| 0 <= j < i ==> s@[off + j] == p@[j],
        decreases p.len() - i,
    {
        if s[off + i] != p[i] {
            assert(s@.subrange(off as int, s@.len() as int)[i as int] != p@[i as int]);
            return false;
        }
        i += 1;
    }
    assert(p@ =~= s@.subrange(off as int, s@.len() as int));
    true
}

/// The decimal representation of `n` is a numeral with the value `n`.
pub proof fn lemma_decimal_numeral(n: nat)
    ensures
        decimal(n).len() > 0,
        all_digits(decimal(n)),
        numeral_value(decimal(n)) == n,
    decreases n,
{
    let d = (n % 10) as nat;
    let c = digit_char(d);
    assert((d + ('0' as u32)) < 0xD800);
    assert(c as u32 == d + ('0' as u32));
    assert(is_digit(c));
    assert(digit_value(c) == d);
    if n >= 10 {
        lemma_decimal_numeral(n / 10);
        let p = decimal(n / 10);
        assert(decimal(n).drop_last() =~= p);
        assert(decimal(n).last() == c);
        assert((n / 10) * 10 + n % 10 == n) by (nonlinear_arith);
        assert(numeral_value(decimal(n)) == numeral_value(p) * 10 + digit_value(c));
        assert forall|k: int| 0 <= k < decimal(n).len() implies is_digit(#[trigger] decimal(n)[k]) by {
            if k < p.len() {
                assert(decimal(n)[k] == p[k]);
            }
        }
    } else {
        assert(decimal(n).drop_last() =~= Seq::<char>::empty());
        assert(decimal(n).last() == c);
        assert(n % 10 == n);
        assert(numeral_value(decimal(n)) == numeral_value(Seq::<char>::empty()) * 10 + digit_value(c));
    }
}

/// Reading back the decimal form of an `i32` gives the number.
pub proof fn law_parse_i32_of_decimal(n: i32)
    ensures
        parse_i32_spec(signed_decimal(n as int)) == Some(n),
{
    if n < 0 {
        let m = (0 - n) as nat;
        lemma_decimal_numeral(m);
        let s = signed_decimal(n as int);
        assert(s.drop_first() =~= decimal(m));
    } else {
        lemma_decimal_numeral(n as nat);
        let s = decimal(n as nat);
        assert(is_digit(s[0]));
    }
}

} // verus!
