//! Text primitives shared by the rest of the crate: whitespace trimming,
//! pattern counting and replacement, decimal rendering and parsing.
use vstd::prelude::*;

verus! {

/// The Unicode `White_Space` property, which `str::trim` strips.
pub open spec fn is_white_space(c: char) -> bool {
    let n = c as u32;
    ||| 0x09 <= n <= 0x0d
    ||| n == 0x20
    ||| n == 0x85
    ||| n == 0xa0
    ||| n == 0x1680
    ||| 0x2000 <= n <= 0x200a
    ||| n == 0x2028
    ||| n == 0x2029
    ||| n == 0x202f
    ||| n == 0x205f
    ||| n == 0x3000
}

/// Tells whether `c` is Unicode white space.
pub fn is_white_space_char(c: char) -> (r: bool)
    ensures
        r == is_white_space(c),
{
    let n = c as u32;
    (0x09 <= n && n <= 0x0d) || n == 0x20 || n == 0x85 || n == 0xa0 || n == 0x1680 || (0x2000
        <= n && n <= 0x200a) || n == 0x2028 || n == 0x2029 || n == 0x202f || n == 0x205f || n
        == 0x3000
}

/// The characters of `s`, in order.
pub fn chars_of(s: &str) -> (r: Vec<char>)
    ensures
        r@ == s@,
{
    let mut v: Vec<char> = Vec::new();
    for c in it: s.chars()
        invariant
            v@ == it.seq().take(it.index() as int),
    {
        v.push(c);
    }
    v
}


/// Appends one character to `s`: `String::push`, which the std documentation
/// describes as appending the given char to the end of the string.
#[verifier::external_body]
fn push_char(s: &mut String, c: char)
    ensures
        final(s)@ == old(s)@.push(c),
{
    s.push(c);
}

/// A `String` holding exactly the given characters.
pub fn string_from_chars(v: &[char]) -> (r: String)
    ensures
        r@ == v@,
{
    let mut s = String::new();
    let mut i: usize = 0;
    while i < v.len()
        invariant
            0 <= i <= v@.len(),
            s@ == v@.take(i as int),
        decreases v@.len() - i,
    {
        push_char(&mut s, v[i]);
        i = i + 1;
        assert(v@.take(i as int) =~= v@.take(i - 1).push(v@[i - 1]));
    }
    assert(v@.take(v@.len() as int) =~= v@);
    s
}

/// `s` with its leading white space removed.
pub open spec fn trim_start_spec(s: Seq<char>) -> Seq<char>
    decreases s.len(),
{
    if s.len() > 0 && is_white_space(s[0]) {
        trim_start_spec(s.drop_first())
    } else {
        s
    }
}

/// `s` with its trailing white space removed.
pub open spec fn trim_end_spec(s: Seq<char>) -> Seq<char>
    decreases s.len(),
{
    if s.len() > 0 && is_white_space(s.last()) {
        trim_end_spec(s.drop_last())
    } else {
        s
    }
}

/// `s` with leading and trailing white space removed, as `str::trim` does.
pub open spec fn trim_spec(s: Seq<char>) -> Seq<char> {
    trim_end_spec(trim_start_spec(s))
}

proof fn lemma_trim_start_skip(s: Seq<char>, i: int)
    requires
        0 <= i <= s.len(),
        forall|j: int| 0 <= j < i ==> is_white_space(#[trigger] s[j]),
    ensures
        trim_start_spec(s) == trim_start_spec(s.skip(i)),
    decreases i,
{
    if i > 0 {
        assert(s.skip(1) =~= s.drop_first());
        assert(s.drop_first().skip(i - 1) =~= s.skip(i));
        lemma_trim_start_skip(s.drop_first(), i - 1);
    } else {
        assert(s.skip(0) =~= s);
    }
}

proof fn lemma_trim_end_take(s: Seq<char>, k: int)
    requires
        0 <= k <= s.len(),
        forall|j: int| k <= j < s.len() ==> is_white_space(#[trigger] s[j]),
    ensures
        trim_end_spec(s) == trim_end_spec(s.take(k)),
    decreases s.len() - k,
{
    if k < s.len() {
        assert(s.take(s.len() - 1) =~= s.drop_last());
        assert(s.drop_last().take(k) =~= s.take(k));
        lemma_trim_end_take(s.drop_last(), k);
    } else {
        assert(s.take(k) =~= s);
    }
}

/// Every character of `s` is white space.
pub open spec fn all_white_space(s: Seq<char>) -> bool {
    forall|i: int| 0 <= i < s.len() ==> is_white_space(#[trigger] s[i])
}

proof fn lemma_trim_start_append(s: Seq<char>, t: Seq<char>)
    ensures
        trim_start_spec(s + t) == if all_white_space(s) {
            trim_start_spec(t)
        } else {
            trim_start_spec(s) + t
        },
    decreases s.len(),
{
    if s.len() == 0 {
        assert(s + t =~= t);
    } else {
        assert((s + t)[0] == s[0]);
        assert((s + t).drop_first() =~= s.drop_first() + t);
        lemma_trim_start_append(s.drop_first(), t);
        if is_white_space(s[0]) {
            if all_white_space(s.drop_first()) {
                assert forall|i: int| 0 <= i < s.len() implies is_white_space(#[trigger] s[i]) by {
                    if i > 0 {
                        assert(s[i] == s.drop_first()[i - 1]);
                    }
                }
            } else {
                assert(!all_white_space(s)) by {
                    let j = choose|j: int| 0 <= j < s.drop_first().len() && !is_white_space(
                        #[trigger] s.drop_first()[j],
                    );
                    assert(s[j + 1] == s.drop_first()[j]);
                }
            }
        } else {
            assert(!all_white_space(s)) by {
                assert(!is_white_space(s[0]));
            }
        }
    }
}

/// A line reads the same with or without white space after it, such as the
/// newline that ends a line typed at a prompt.
pub proof fn law_trailing_white_space_ignored(s: Seq<char>, c: char)
    requires
        is_white_space(c),
    ensures
        trim_spec(s.push(c)) == trim_spec(s),
{
    assert(s.push(c) =~= s + seq![c]);
    lemma_trim_start_append(s, seq![c]);
    if all_white_space(s) {
        lemma_trim_start_append(s, Seq::<char>::empty());
        assert(s + Seq::<char>::empty() =~= s);
        let e = Seq::<char>::empty();
        assert(trim_start_spec(e) == e);
        assert(seq![c].drop_first() =~= e);
        assert(trim_start_spec(seq![c]) == e);
    } else {
        let u = trim_start_spec(s);
        assert(u + seq![c] =~= u.push(c));
        assert(u.push(c).drop_last() =~= u);
    }
}

/// `s` without its leading and trailing white space.
pub fn trim(s: &str) -> (r: &str)
    ensures
        r@ == trim_spec(s@),
{
    let cs = chars_of(s);
    let n = cs.len();
    let mut start: usize = 0;
    while start < n && is_white_space_char(cs[start])
        invariant
            0 <= start <= n,
            n == cs@.len(),
            forall|j: int| 0 <= j < start ==> is_white_space(#[trigger] cs@[j]),
        decreases n - start,
    {
        start = start + 1;
    }
    let mut end: usize = n;
    while end > start && is_white_space_char(cs[end - 1])
        invariant
            start <= end <= n,
            n == cs@.len(),
            forall|j: int| end <= j < n ==> is_white_space(#[trigger] cs@[j]),
        decreases end,
    {
        end = end - 1;
    }
    proof {
        lemma_trim_start_skip(cs@, start as int);
        let t = cs@.skip(start as int);
        if start < n {
            assert(!is_white_space(t[0]));
        }
        assert(trim_start_spec(t) == t);
        lemma_trim_end_take(t, end - start);
        assert(t.take(end - start) =~= cs@.subrange(start as int, end as int));
        if end > start {
            assert(!is_white_space(t.take(end - start).last()));
        }
    }
    s.substring_char(start, end)
}


/// `s` begins with `p`.
pub open spec fn starts_with(s: Seq<char>, p: Seq<char>) -> bool {
    p.len() <= s.len() && s.take(p.len() as int) == p
}

/// The number of occurrences of `p` in `s` found when scanning from the left
/// without overlap, as `str::matches(..).count()` finds them.
pub open spec fn count_matches(s: Seq<char>, p: Seq<char>) -> nat
    decreases s.len(),
{
    if p.len() == 0 || s.len() == 0 {
        0
    } else if starts_with(s, p) {
        1 + count_matches(s.skip(p.len() as int), p)
    } else {
        count_matches(s.drop_first(), p)
    }
}

/// `s` with every occurrence of `p` (scanning from the left, without overlap)
/// replaced by `r`, as `str::replace` does.
pub open spec fn replace_all(s: Seq<char>, p: Seq<char>, r: Seq<char>) -> Seq<char>
    decreases s.len(),
{
    if p.len() == 0 || s.len() == 0 {
        s
    } else if starts_with(s, p) {
        r + replace_all(s.skip(p.len() as int), p, r)
    } else {
        seq![s[0]] + replace_all(s.drop_first(), p, r)
    }
}

/// Whether `p` occurs in `s` at position `i`.
fn matches_at(s: &Vec<char>, i: usize, p: &Vec<char>) -> (r: bool)
    requires
        i <= s@.len(),
    ensures
        r == starts_with(s@.skip(i as int), p@),
{
    if p.len() > s.len() - i {
        return false;
    }
    let mut j: usize = 0;
    while j < p.len()
        invariant
            0 <= j <= p@.len(),
            i + p@.len() <= s@.len(),
            s@.len() <= usize::MAX,
            forall|k: int| 0 <= k < j ==> s@[i + k] == p@[k],
        decreases p@.len() - j,
    {
        if s[i + j] != p[j] {
            assert(s@.skip(i as int).take(p@.len() as int)[j as int] != p@[j as int]);
            return false;
        }
        j = j + 1;
    }
    assert(s@.skip(i as int).take(p@.len() as int) =~= p@);
    true
}

/// Counts the occurrences of `p` in `s`, scanning from the left without overlap.
pub fn count_matches_in(s: &Vec<char>, p: &Vec<char>) -> (r: usize)
    requires
        p@.len() > 0,
    ensures
        r == count_matches(s@, p@),
{
    let n = s.len();
    let mut i: usize = 0;
    let mut cnt: usize = 0;
    assert(s@.skip(0) =~= s@);
    while i < n
        invariant
            0 <= i <= n,
            n == s@.len(),
            p@.len() > 0,
            cnt <= i,
            cnt + count_matches(s@.skip(i as int), p@) == count_matches(s@, p@),
        decreases n - i,
    {
        let t = Ghost(s@.skip(i as int));
        if matches_at(s, i, p) {
            assert(t@.skip(p@.len() as int) =~= s@.skip(i + p@.len()));
            cnt = cnt + 1;
            i = i + p.len();
        } else {
            assert(t@.drop_first() =~= s@.skip(i + 1));
            i = i + 1;
        }
    }
    cnt
}

/// Replaces every occurrence of `p` in `s` by `r`, scanning from the left
/// without overlap.
pub fn replace_all_in(s: &Vec<char>, p: &Vec<char>, r: &Vec<char>) -> (out: Vec<char>)
    requires
        p@.len() > 0,
    ensures
        out@ == replace_all(s@, p@, r@),
{
    let n = s.len();
    let mut i: usize = 0;
    let mut out: Vec<char> = Vec::new();
    assert(s@.skip(0) =~= s@);
    while i < n
        invariant
            0 <= i <= n,
            n == s@.len(),
            p@.len() > 0,
            out@ + replace_all(s@.skip(i as int), p@, r@) == replace_all(s@, p@, r@),
        decreases n - i,
    {
        let t = Ghost(s@.skip(i as int));
        let ghost old_out = out@;
        if matches_at(s, i, p) {
            assert(t@.skip(p@.len() as int) =~= s@.skip(i + p@.len()));
            let mut k: usize = 0;
            while k < r.len()
                invariant
                    0 <= k <= r@.len(),
                    out@ == old_out + r@.take(k as int),
                decreases r@.len() - k,
            {
                out.push(r[k]);
                k = k + 1;
                assert(r@.take(k as int) =~= r@.take(k - 1).push(r@[k - 1]));
            }
            assert(r@.take(r@.len() as int) =~= r@);
            assert(old_out + (r@ + replace_all(s@.skip(i + p@.len()), p@, r@)) =~= (old_out
                + r@) + replace_all(s@.skip(i + p@.len()), p@, r@));
            i = i + p.len();
        } else {
            assert(t@.drop_first() =~= s@.skip(i + 1));
            out.push(s[i]);
            assert(old_out + (seq![s@[i as int]] + replace_all(s@.skip(i + 1), p@, r@)) =~= (
            old_out.push(s@[i as int])) + replace_all(s@.skip(i + 1), p@, r@));
            i = i + 1;
        }
    }
    assert(s@.skip(n as int) =~= Seq::<char>::empty());
    assert(out@ + Seq::<char>::empty() =~= out@);
    out
}


/// The decimal digit character for `d` (a value below ten).
pub open spec fn digit_char(d: nat) -> char {
    if d == 0 {
        '0'
    } else if d == 1 {
        '1'
    } else if d == 2 {
        '2'
    } else if d == 3 {
        '3'
    } else if d == 4 {
        '4'
    } else if d == 5 {
        '5'
    } else if d == 6 {
        '6'
    } else if d == 7 {
        '7'
    } else if d == 8 {
        '8'
    } else {
        '9'
    }
}

/// The decimal notation of `n`, without sign or leading zeros.
pub open spec fn decimal(n: nat) -> Seq<char>
    decreases n,
{
    if n < 10 {
        seq![digit_char(n)]
    } else {
        decimal(n / 10).push(digit_char(n % 10))
    }
}

fn digit_to_char(d: u32) -> (c: char)
    requires
        d < 10,
    ensures
        c == digit_char(d as nat),
{
    if d == 0 {
        '0'
    } else if d == 1 {
        '1'
    } else if d == 2 {
        '2'
    } else if d == 3 {
        '3'
    } else if d == 4 {
        '4'
    } else if d == 5 {
        '5'
    } else if d == 6 {
        '6'
    } else if d == 7 {
        '7'
    } else if d == 8 {
        '8'
    } else {
        '9'
    }
}

/// The decimal notation of `n`, as `u32::to_string` writes it.
pub fn u32_to_decimal(n: u32) -> (r: String)
    ensures
        r@ == decimal(n as nat),
    decreases n,
{
    if n < 10 {
        let mut s = String::new();
        push_char(&mut s, digit_to_char(n));
        assert(s@ =~= seq![digit_char(n as nat)]);
        s
    } else {
        let mut s = u32_to_decimal(n / 10);
        push_char(&mut s, digit_to_char(n % 10));
        s
    }
}

/// Why a text is not the decimal notation of a `u32`; the kinds of
/// `std::num::IntErrorKind`.
#[derive(Clone, Copy, Debug, PartialEq, Eq)]
pub enum ParseErrorKind {
    Empty,
    InvalidDigit,
    PosOverflow,
    NegOverflow,
    Zero,
}

/// `c` is one of the ASCII digits `0` to `9`.
pub open spec fn is_ascii_digit(c: char) -> bool {
    '0' <= c <= '9'
}

/// The value of the ASCII digit `c`.
pub open spec fn digit_value(c: char) -> nat {
    (c as u32 - '0' as u32) as nat
}

/// Reads the digits of `s` from the left onto the value `acc`: the first
/// character that is not a digit is an invalid digit, and a value above
/// `u32::MAX` is a positive overflow.
pub open spec fn parse_digits(acc: nat, s: Seq<char>) -> Result<u32, ParseErrorKind>
    decreases s.len(),
{
    if s.len() == 0 {
        Ok(acc as u32)
    } else if !is_ascii_digit(s[0]) {
        Err(ParseErrorKind::InvalidDigit)
    } else if acc * 10 + digit_value(s[0]) > u32::MAX {
        Err(ParseErrorKind::PosOverflow)
    } else {
        parse_digits(acc * 10 + digit_value(s[0]), s.drop_first())
    }
}

/// What `str::parse::<u32>` gives for `s`: an empty text is `Empty`, an
/// optional leading `+` is followed by at least one digit.
pub open spec fn parse_u32_spec(s: Seq<char>) -> Result<u32, ParseErrorKind> {
    if s.len() == 0 {
        Err(ParseErrorKind::Empty)
    } else if s[0] == '+' {
        if s.len() == 1 {
            Err(ParseErrorKind::InvalidDigit)
        } else {
            parse_digits(0, s.drop_first())
        }
    } else {
        parse_digits(0, s)
    }
}

/// Reads `s` as the decimal notation of a `u32`.
pub fn parse_u32(s: &str) -> (r: Result<u32, ParseErrorKind>)
    ensures
        r == parse_u32_spec(s@),
{
    let cs = chars_of(s);
    let n = cs.len();
    if n == 0 {
        return Err(ParseErrorKind::Empty);
    }
    let mut i: usize = 0;
    if cs[0] == '+' {
        if n == 1 {
            return Err(ParseErrorKind::InvalidDigit);
        }
        i = 1;
        assert(cs@.skip(1) =~= cs@.drop_first());
    } else {
        assert(cs@.skip(0) =~= cs@);
    }
    let ghost digits = cs@.skip(i as int);
    let mut acc: u32 = 0;
    while i < n
        invariant
            0 <= i <= n,
            n == cs@.len(),
            cs@ == s@,
            parse_u32_spec(cs@) == parse_digits(acc as nat, cs@.skip(i as int)),
        decreases n - i,
    {
        let c = cs[i];
        assert(cs@.skip(i as int)[0] == c);
        assert(cs@.skip(i as int).drop_first() =~= cs@.skip(i + 1));
        if !('0' <= c && c <= '9') {
            return Err(ParseErrorKind::InvalidDigit);
        }
        let d = (c as u32) - ('0' as u32);
        assert(digit_value(c) == d);
        let next: u64 = (acc as u64) * 10 + (d as u64);
        if next > (u32::MAX as u64) {
            return Err(ParseErrorKind::PosOverflow);
        }
        acc = next as u32;
        i = i + 1;
    }
    Ok(acc)
}


/// `p` occurs in `s` at position `i`.
pub open spec fn occurs_at(s: Seq<char>, p: Seq<char>, i: int) -> bool {
    0 <= i && i + p.len() <= s.len() && s.subrange(i, i + p.len()) == p
}

/// Scanning `x + y` for `p` treats the two parts apart when no occurrence of
/// `p` straddles their border.
pub proof fn lemma_concat_scan(x: Seq<char>, y: Seq<char>, p: Seq<char>, r: Seq<char>)
    requires
        p.len() > 0,
        forall|i: int| x.len() - p.len() < i < x.len() ==> !occurs_at(x + y, p, i),
    ensures
        count_matches(x + y, p) == count_matches(x, p) + count_matches(y, p),
        replace_all(x + y, p, r) == replace_all(x, p, r) + replace_all(y, p, r),
    decreases x.len(),
{
    let s = x + y;
    if x.len() == 0 {
        assert(s =~= y);
        assert(replace_all(x, p, r) + replace_all(y, p, r) =~= replace_all(y, p, r));
    } else if starts_with(s, p) {
        assert(occurs_at(s, p, 0)) by {
            assert(s.take(p.len() as int) =~= s.subrange(0, p.len() as int));
        }
        assert(p.len() <= x.len());
        assert(x.take(p.len() as int) =~= s.take(p.len() as int));
        let k = p.len() as int;
        let x2 = x.skip(k);
        assert(s.skip(k) =~= x2 + y);
        assert forall|i: int| x2.len() - p.len() < i < x2.len() implies !occurs_at(x2 + y, p, i) by {
            if occurs_at(x2 + y, p, i) {
                assert((x2 + y).subrange(i, i + p.len()) =~= s.subrange(i + k, i + k + p.len()));
                assert(occurs_at(s, p, i + k));
            }
        }
        lemma_concat_scan(x2, y, p, r);
        assert(r + (replace_all(x2, p, r) + replace_all(y, p, r)) =~= (r + replace_all(x2, p, r))
            + replace_all(y, p, r));
    } else {
        assert(!starts_with(x, p)) by {
            if starts_with(x, p) {
                assert(s.take(p.len() as int) =~= x.take(p.len() as int));
            }
        }
        let x2 = x.drop_first();
        assert(s.drop_first() =~= x2 + y);
        assert forall|i: int| x2.len() - p.len() < i < x2.len() implies !occurs_at(x2 + y, p, i) by {
            if occurs_at(x2 + y, p, i) {
                assert((x2 + y).subrange(i, i + p.len()) =~= s.subrange(i + 1, i + 1 + p.len()));
                assert(occurs_at(s, p, i + 1));
            }
        }
        lemma_concat_scan(x2, y, p, r);
        assert(s[0] == x[0]);
        assert(seq![x[0]] + (replace_all(x2, p, r) + replace_all(y, p, r)) =~= (seq![x[0]]
            + replace_all(x2, p, r)) + replace_all(y, p, r));
    }
}

/// A text without occurrences of `p` is left as it is by replacing `p`.
pub proof fn lemma_no_match_unchanged(s: Seq<char>, p: Seq<char>, r: Seq<char>)
    requires
        p.len() > 0,
        count_matches(s, p) == 0,
    ensures
        replace_all(s, p, r) == s,
        forall|i: int| !occurs_at(s, p, i),
    decreases s.len(),
{
    if s.len() > 0 {
        assert(!starts_with(s, p));
        lemma_no_match_unchanged(s.drop_first(), p, r);
        assert(seq![s[0]] + s.drop_first() =~= s);
        assert forall|i: int| !occurs_at(s, p, i) by {
            if i == 0 && occurs_at(s, p, 0) {
                assert(s.take(p.len() as int) =~= s.subrange(0, p.len() as int));
            }
            if i > 0 && occurs_at(s, p, i) {
                assert(s.drop_first().subrange(i - 1, i - 1 + p.len()) =~= s.subrange(
                    i,
                    i + p.len(),
                ));
                assert(occurs_at(s.drop_first(), p, i - 1));
            }
        }
    }
}

/// `p` itself holds one occurrence of `p`, which becomes `r`.
pub proof fn lemma_pattern_alone(p: Seq<char>, r: Seq<char>)
    requires
        p.len() > 0,
    ensures
        count_matches(p, p) == 1,
        replace_all(p, p, r) == r,
{
    let e = Seq::<char>::empty();
    assert(p.take(p.len() as int) =~= p);
    assert(p.skip(p.len() as int) =~= e);
    assert(count_matches(e, p) == 0);
    assert(replace_all(e, p, r) == e);
    assert(r + e =~= r);
}


/// A text shorter than `p` holds no occurrence of it.
pub proof fn lemma_shorter_than_pattern(s: Seq<char>, p: Seq<char>, r: Seq<char>)
    requires
        0 < p.len(),
        s.len() < p.len(),
    ensures
        count_matches(s, p) == 0,
        replace_all(s, p, r) == s,
    decreases s.len(),
{
    if s.len() > 0 {
        lemma_shorter_than_pattern(s.drop_first(), p, r);
        assert(seq![s[0]] + s.drop_first() =~= s);
    }
}

/// A text where `p` occurs nowhere holds no occurrence of `p` when scanned.
pub proof fn lemma_count_zero_if_absent(s: Seq<char>, p: Seq<char>)
    requires
        p.len() > 0,
        forall|i: int| !occurs_at(s, p, i),
    ensures
        count_matches(s, p) == 0,
    decreases s.len(),
{
    if s.len() > 0 {
        assert(!starts_with(s, p)) by {
            if starts_with(s, p) {
                assert(s.take(p.len() as int) =~= s.subrange(0, p.len() as int));
                assert(occurs_at(s, p, 0));
            }
        }
        let t = s.drop_first();
        assert forall|i: int| !occurs_at(t, p, i) by {
            if occurs_at(t, p, i) {
                assert(t.subrange(i, i + p.len()) =~= s.subrange(i + 1, i + 1 + p.len()));
                assert(occurs_at(s, p, i + 1));
            }
        }
        lemma_count_zero_if_absent(t, p);
    }
}

/// A part of a text where `p` occurs nowhere holds no occurrence of `p`.
pub proof fn lemma_part_without_pattern(s: Seq<char>, lo: int, hi: int, p: Seq<char>)
    requires
        p.len() > 0,
        0 <= lo <= hi <= s.len(),
        forall|i: int| !occurs_at(s, p, i),
    ensures
        count_matches(s.subrange(lo, hi), p) == 0,
{
    let t = s.subrange(lo, hi);
    assert forall|i: int| !occurs_at(t, p, i) by {
        if occurs_at(t, p, i) {
            assert(t.subrange(i, i + p.len()) =~= s.subrange(lo + i, lo + i + p.len()));
            assert(occurs_at(s, p, lo + i));
        }
    }
    lemma_count_zero_if_absent(t, p);
}

/// A placeholder pattern: it opens with `{`, closes with `}`, and holds no
/// other brace.
pub open spec fn is_brace_pattern(p: Seq<char>) -> bool {
    &&& p.len() >= 2
    &&& p[0] == '{'
    &&& p.last() == '}'
    &&& forall|j: int| 0 < j < p.len() ==> p[j] != '{'
    &&& forall|j: int| 0 <= j < p.len() - 1 ==> p[j] != '}'
}

/// No occurrence of a placeholder pattern straddles the border before a `{`.
pub proof fn lemma_border_before_brace(x: Seq<char>, y: Seq<char>, p: Seq<char>)
    requires
        is_brace_pattern(p),
        y.len() > 0,
        y[0] == '{',
    ensures
        forall|i: int| x.len() - p.len() < i < x.len() ==> !occurs_at(x + y, p, i),
{
    assert forall|i: int| x.len() - p.len() < i < x.len() implies !occurs_at(x + y, p, i) by {
        if occurs_at(x + y, p, i) {
            let j = x.len() - i;
            assert((x + y).subrange(i, i + p.len())[j] == (x + y)[x.len() as int]);
            assert(p[j] == '{');
        }
    }
}

/// No occurrence of a placeholder pattern straddles the border after a `}`.
pub proof fn lemma_border_after_brace(x: Seq<char>, y: Seq<char>, p: Seq<char>)
    requires
        is_brace_pattern(p),
        x.len() > 0,
        x.last() == '}',
    ensures
        forall|i: int| x.len() - p.len() < i < x.len() ==> !occurs_at(x + y, p, i),
{
    assert forall|i: int| x.len() - p.len() < i < x.len() implies !occurs_at(x + y, p, i) by {
        if occurs_at(x + y, p, i) {
            let j = x.len() - 1 - i;
            assert((x + y).subrange(i, i + p.len())[j] == (x + y)[x.len() - 1]);
            assert(p[j] == '}');
        }
    }
}


/// Whether the two texts are the same.
pub fn same_text(a: &str, b: &str) -> (r: bool)
    ensures
        r == (a@ == b@),
{
    let x = chars_of(a);
    let y = chars_of(b);
    if x.len() != y.len() {
        return false;
    }
    let mut i: usize = 0;
    while i < x.len()
        invariant
            0 <= i <= x@.len(),
            x@.len() == y@.len(),
            x@ == a@,
            y@ == b@,
            forall|j: int| 0 <= j < i ==> x@[j] == y@[j],
        decreases x@.len() - i,
    {
        if x[i] != y[i] {
            assert(a@[i as int] != b@[i as int]);
            return false;
        }
        i = i + 1;
    }
    assert(x@ =~= y@);
    true
}

} // verus!
