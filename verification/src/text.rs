//! Character-level string utilities: trimming, splitting, prefix handling,
//! and decimal parsing/formatting, each proved against a direct
//! mathematical description over sequences of characters.

use vstd::prelude::*;
use vstd::string::*;

verus! {

// ---------------------------------------------------------------------------
// character classes
// ---------------------------------------------------------------------------

/// The whitespace characters recognized by this crate's trimming, marker
/// detection and blank-line checks: the Unicode `White_Space` set, i.e.
/// exactly the characters `char::is_whitespace` accepts.
pub open spec fn is_space_char(c: char) -> bool {
    c == ' ' || c == '\t' || c == '\r' || c == '\n' || c == '\u{b}' || c == '\u{c}' || c == '\u{85}'
        || c == '\u{a0}' || c == '\u{1680}' || (0x2000 <= c as u32 <= 0x200a) || c == '\u{2028}'
        || c == '\u{2029}' || c == '\u{202f}' || c == '\u{205f}' || c == '\u{3000}'
}

pub fn is_space(c: char) -> (r: bool)
    ensures
        r == is_space_char(c),
{
    let u = c as u32;
    c == ' ' || c == '\t' || c == '\r' || c == '\n' || c == '\u{b}' || c == '\u{c}' || c == '\u{85}'
        || c == '\u{a0}' || c == '\u{1680}' || (0x2000 <= u && u <= 0x200a) || c == '\u{2028}'
        || c == '\u{2029}' || c == '\u{202f}' || c == '\u{205f}' || c == '\u{3000}'
}

pub open spec fn is_digit_char(c: char) -> bool {
    48 <= c as u32 <= 57
}

/// Numeric value of a decimal digit character.
pub open spec fn digit_val(c: char) -> int {
    c as u32 - 48
}

/// The decimal digit character for a value in 0..=9.
pub open spec fn digit_char(d: int) -> char {
    if d == 0 { '0' }
    else if d == 1 { '1' }
    else if d == 2 { '2' }
    else if d == 3 { '3' }
    else if d == 4 { '4' }
    else if d == 5 { '5' }
    else if d == 6 { '6' }
    else if d == 7 { '7' }
    else if d == 8 { '8' }
    else { '9' }
}

// ---------------------------------------------------------------------------
// equality and prefixes
// ---------------------------------------------------------------------------

/// Character-for-character string equality.
pub fn str_eq(a: &str, b: &str) -> (r: bool)
    ensures
        r == (a@ == b@),
{
    let an = a.unicode_len();
    let bn = b.unicode_len();
    if an != bn {
        return false;
    }
    for i in 0..an
        invariant
            an == a@.len(),
            an == b@.len(),
            forall|j: int| 0 <= j < i ==> a@[j] == b@[j],
    {
        if a.get_char(i) != b.get_char(i) {
            return false;
        }
    }
    proof {
        assert(a@ =~= b@);
    }
    true
}

pub open spec fn starts_with(s: Seq<char>, p: Seq<char>) -> bool {
    s.len() >= p.len() && s.subrange(0, p.len() as int) == p
}

pub fn has_prefix(s: &str, p: &str) -> (r: bool)
    ensures
        r == starts_with(s@, p@),
{
    let sn = s.unicode_len();
    let pn = p.unicode_len();
    if sn < pn {
        return false;
    }
    for i in 0..pn
        invariant
            sn == s@.len(),
            pn == p@.len(),
            sn >= pn,
            forall|j: int| 0 <= j < i ==> s@[j] == p@[j],
    {
        if s.get_char(i) != p.get_char(i) {
            proof {
                assert(s@.subrange(0, p@.len() as int)[i as int] == s@[i as int]);
            }
            return false;
        }
    }
    proof {
        assert(s@.subrange(0, p@.len() as int) =~= p@);
    }
    true
}

// ---------------------------------------------------------------------------
// trimming
// ---------------------------------------------------------------------------

pub open spec fn trim_start_spec(s: Seq<char>) -> Seq<char>
    decreases s.len(),
{
    if s.len() > 0 && is_space_char(s[0]) {
        trim_start_spec(s.drop_first())
    } else {
        s
    }
}

pub open spec fn trim_end_spec(s: Seq<char>) -> Seq<char>
    decreases s.len(),
{
    if s.len() > 0 && is_space_char(s.last()) {
        trim_end_spec(s.drop_last())
    } else {
        s
    }
}

/// The string with leading and trailing whitespace removed.
pub open spec fn trim_spec(s: Seq<char>) -> Seq<char> {
    trim_end_spec(trim_start_spec(s))
}

proof fn lemma_trim_start_step(s: Seq<char>, i: int)
    requires
        0 <= i < s.len(),
        forall|j: int| 0 <= j <= i ==> is_space_char(s[j]),
    ensures
        trim_start_spec(s) == trim_start_spec(s.skip(i + 1)),
    decreases i,
{
    if i == 0 {
        assert(s.drop_first() =~= s.skip(1));
    } else {
        lemma_trim_start_step(s, i - 1);
        assert(s.skip(i)[0] == s[i]);
        assert(s.skip(i).drop_first() =~= s.skip(i + 1));
    }
}

proof fn lemma_trim_end_step(s: Seq<char>, b: int)
    requires
        0 <= b < s.len(),
        forall|j: int| b <= j < s.len() ==> is_space_char(s[j]),
    ensures
        trim_end_spec(s) == trim_end_spec(s.take(b)),
    decreases s.len() - b,
{
    if b == s.len() - 1 {
        assert(s.drop_last() =~= s.take(b));
    } else {
        lemma_trim_end_step(s.drop_last(), b);
        assert(s.drop_last().take(b) =~= s.take(b));
    }
}

pub fn trim(s: &str) -> (r: &str)
    ensures
        r@ == trim_spec(s@),
{
    let n = s.unicode_len();
    let mut a: usize = 0;
    while a < n && is_space(s.get_char(a))
        invariant
            n == s@.len(),
            a <= n,
            forall|j: int| 0 <= j < a ==> is_space_char(s@[j]),
        decreases n - a,
    {
        a = a + 1;
    }
    proof {
        if a > 0 {
            lemma_trim_start_step(s@, a - 1);
        }
        assert(trim_start_spec(s@) == trim_start_spec(s@.skip(a as int)));
        if a == n {
            assert(s@.skip(a as int) =~= Seq::<char>::empty());
        }
    }
    let mut b: usize = n;
    while b > a && is_space(s.get_char(b - 1))
        invariant
            n == s@.len(),
            a <= b <= n,
            forall|j: int| b <= j < n ==> is_space_char(s@[j]),
        decreases b,
    {
        b = b - 1;
    }
    let r = s.substring_char(a, b);
    proof {
        let t = s@.skip(a as int);
        // the slice [a, b) of s is the slice [0, b - a) of t
        if b < n {
            lemma_trim_end_step(t, b - a);
        }
        assert(t.take(b - a) =~= s@.subrange(a as int, b as int));
        if a < b {
            // t begins with a non-space character, so trim_start left it whole;
            // its last kept character is non-space, so trim_end stops there
            assert(!is_space_char(t[0]));
            assert(trim_start_spec(s@) == t);
            let u = t.take(b - a);
            assert(!is_space_char(u.last()));
            assert(trim_end_spec(t) == u);
        } else {
            // everything was whitespace
            assert(b == a);
            if a < n {
                assert(!is_space_char(t[0]));
                assert(trim_start_spec(s@) == t);
                assert(trim_end_spec(t) == t.take(0)) by {
                    lemma_trim_end_step(t, 0);
                }
            } else {
                assert(t =~= Seq::<char>::empty());
            }
            assert(t.take(0) =~= Seq::<char>::empty());
            assert(s@.subrange(a as int, b as int) =~= Seq::<char>::empty());
        }
    }
    r
}

pub fn trim_start(s: &str) -> (r: &str)
    ensures
        r@ == trim_start_spec(s@),
{
    let n = s.unicode_len();
    let mut a: usize = 0;
    while a < n && is_space(s.get_char(a))
        invariant
            n == s@.len(),
            a <= n,
            forall|j: int| 0 <= j < a ==> is_space_char(s@[j]),
        decreases n - a,
    {
        a = a + 1;
    }
    let r = s.substring_char(a, n);
    proof {
        if a > 0 {
            lemma_trim_start_step(s@, a - 1);
        }
        let t = s@.skip(a as int);
        assert(t =~= s@.subrange(a as int, n as int));
        if a < n {
            assert(!is_space_char(t[0]));
        } else {
            assert(t =~= Seq::<char>::empty());
        }
    }
    r
}

/// Whether a line is blank, i.e. holds only whitespace.
pub open spec fn is_blank_spec(s: Seq<char>) -> bool {
    trim_spec(s).len() == 0
}

pub fn is_blank(s: &str) -> (r: bool)
    ensures
        r == is_blank_spec(s@),
{
    let t = trim(s);
    t.unicode_len() == 0
}

// ---------------------------------------------------------------------------
// repeated prefix stripping
// ---------------------------------------------------------------------------

/// The string with every leading repetition of `p` removed.
pub open spec fn strip_prefix_all(s: Seq<char>, p: Seq<char>) -> Seq<char>
    decreases s.len(),
{
    if p.len() > 0 && starts_with(s, p) {
        strip_prefix_all(s.skip(p.len() as int), p)
    } else {
        s
    }
}

pub fn strip_repeated<'a>(s: &'a str, p: &str) -> (r: &'a str)
    ensures
        r@ == strip_prefix_all(s@, p@),
{
    let pn = p.unicode_len();
    if pn == 0 {
        return s;
    }
    let mut rest = s;
    while has_prefix(rest, p)
        invariant
            pn == p@.len(),
            pn > 0,
            strip_prefix_all(s@, p@) == strip_prefix_all(rest@, p@),
        decreases rest@.len(),
    {
        let ghost before = rest@;
        let rn = rest.unicode_len();
        rest = rest.substring_char(pn, rn);
        proof {
            assert(rest@ =~= before.skip(pn as int));
        }
    }
    rest
}

// ---------------------------------------------------------------------------
// splitting
// ---------------------------------------------------------------------------

/// Splitting with an explicit accumulator holding the piece read so far.
pub open spec fn split_acc(s: Seq<char>, sep: char, cur: Seq<char>) -> Seq<Seq<char>>
    decreases s.len(),
{
    if s.len() == 0 {
        seq![cur]
    } else if s[0] == sep {
        seq![cur] + split_acc(s.drop_first(), sep, Seq::empty())
    } else {
        split_acc(s.drop_first(), sep, cur.push(s[0]))
    }
}

/// The pieces of `s` between occurrences of `sep`; always at least one piece.
pub open spec fn split_spec(s: Seq<char>, sep: char) -> Seq<Seq<char>> {
    split_acc(s, sep, Seq::empty())
}

pub open spec fn seq_views(v: Seq<String>) -> Seq<Seq<char>> {
    v.map_values(|x: String| x@)
}

pub open spec fn opt_view(o: Option<String>) -> Option<Seq<char>> {
    match o {
        Some(s) => Some(s@),
        None => None,
    }
}

pub fn split_char(s: &str, sep: char) -> (parts: Vec<String>)
    ensures
        seq_views(parts@) == split_spec(s@, sep),
{
    let n = s.unicode_len();
    let mut parts: Vec<String> = Vec::new();
    let mut start: usize = 0;
    let mut i: usize = 0;
    proof {
        assert(s@.skip(0) =~= s@);
        assert(s@.subrange(0, 0) =~= Seq::<char>::empty());
        assert(seq_views(parts@) =~= Seq::<Seq<char>>::empty());
        assert(seq_views(parts@) + split_acc(s@, sep, Seq::empty()) =~= split_acc(
            s@,
            sep,
            Seq::empty(),
        ));
    }
    while i < n
        invariant
            n == s@.len(),
            start <= i <= n,
            split_spec(s@, sep) == seq_views(parts@) + split_acc(
                s@.skip(i as int),
                sep,
                s@.subrange(start as int, i as int),
            ),
        decreases n - i,
    {
        let ghost cur = s@.subrange(start as int, i as int);
        let ghost rest = s@.skip(i as int);
        let ghost parts_before = parts@;
        let c = s.get_char(i);
        proof {
            assert(rest[0] == s@[i as int]);
            assert(rest.drop_first() =~= s@.skip(i as int + 1));
        }
        if c == sep {
            let piece = s.substring_char(start, i);
            parts.push(String::from_str(piece));
            proof {
                assert(seq_views(parts@) =~= seq_views(parts_before).push(cur));
                assert(split_acc(rest, sep, cur) == seq![cur] + split_acc(
                    rest.drop_first(),
                    sep,
                    Seq::empty(),
                ));
                assert(seq_views(parts_before) + (seq![cur] + split_acc(
                    rest.drop_first(),
                    sep,
                    Seq::empty(),
                )) =~= seq_views(parts@) + split_acc(rest.drop_first(), sep, Seq::empty()));
                assert(s@.subrange(i as int + 1, i as int + 1) =~= Seq::<char>::empty());
            }
            start = i + 1;
        } else {
            proof {
                assert(split_acc(rest, sep, cur) == split_acc(
                    rest.drop_first(),
                    sep,
                    cur.push(s@[i as int]),
                ));
                assert(cur.push(s@[i as int]) =~= s@.subrange(start as int, i as int + 1));
            }
        }
        i = i + 1;
    }
    let ghost parts_before = parts@;
    let piece = s.substring_char(start, n);
    parts.push(String::from_str(piece));
    proof {
        let cur = s@.subrange(start as int, n as int);
        assert(s@.skip(n as int) =~= Seq::<char>::empty());
        assert(split_acc(s@.skip(n as int), sep, cur) == seq![cur]);
        assert(seq_views(parts@) =~= seq_views(parts_before).push(cur));
        assert(seq_views(parts_before) + seq![cur] =~= seq_views(parts@));
    }
    parts
}

// ---------------------------------------------------------------------------
// decimal numbers
// ---------------------------------------------------------------------------

pub open spec fn all_digits(s: Seq<char>) -> bool {
    forall|i: int| 0 <= i < s.len() ==> is_digit_char(#[trigger] s[i])
}

/// The value of a sequence of decimal digit characters, most significant first.
pub open spec fn digits_val(s: Seq<char>) -> int
    decreases s.len(),
{
    if s.len() == 0 {
        0
    } else {
        digits_val(s.drop_last()) * 10 + digit_val(s.last())
    }
}

pub proof fn lemma_digits_val_nonneg(s: Seq<char>)
    requires
        all_digits(s),
    ensures
        digits_val(s) >= 0,
    decreases s.len(),
{
    if s.len() > 0 {
        assert(all_digits(s.drop_last())) by {
            assert(forall|i: int| 0 <= i < s.len() - 1 ==> s.drop_last()[i] == s[i]);
        }
        lemma_digits_val_nonneg(s.drop_last());
    }
}

pub proof fn lemma_digits_val_mono(s: Seq<char>, k: int)
    requires
        all_digits(s),
        0 <= k <= s.len(),
    ensures
        digits_val(s.take(k)) <= digits_val(s),
    decreases s.len(),
{
    if k < s.len() {
        assert(all_digits(s.drop_last())) by {
            assert(forall|i: int| 0 <= i < s.len() - 1 ==> s.drop_last()[i] == s[i]);
        }
        assert(s.drop_last().take(k) =~= s.take(k));
        lemma_digits_val_mono(s.drop_last(), k);
        lemma_digits_val_nonneg(s.drop_last());
    } else {
        assert(s.take(k) =~= s);
    }
}

/// The digits of `s` after an optional single leading sign character.
pub open spec fn int_body(s: Seq<char>) -> Seq<char> {
    if s.len() > 0 && (s[0] == '+' || s[0] == '-') {
        s.drop_first()
    } else {
        s
    }
}

pub open spec fn int_is_negative(s: Seq<char>) -> bool {
    s.len() > 0 && s[0] == '-'
}

/// Whether `s` is an optionally signed decimal integer literal.
pub open spec fn is_int_str(s: Seq<char>) -> bool {
    int_body(s).len() > 0 && all_digits(int_body(s))
}

/// The mathematical value of an integer literal accepted by `is_int_str`.
pub open spec fn int_str_val(s: Seq<char>) -> int {
    if int_is_negative(s) {
        -digits_val(int_body(s))
    } else {
        digits_val(int_body(s))
    }
}

/// Parses an unsigned decimal integer as `str::parse::<u32>` does:
/// an optional `+`, then one or more digits, rejecting values over `u32::MAX`.
pub fn parse_u32(s: &str) -> (r: Result<u32, crate::Error>)
    ensures
        r is Ok <==> is_int_str(s@) && !int_is_negative(s@) && int_str_val(s@) <= u32::MAX,
        r matches Ok(v) ==> v == int_str_val(s@),
{
    let n = s.unicode_len();
    if n == 0 {
        return Err(crate::Error::new("empty integer literal"));
    }
    let c0 = s.get_char(0);
    if c0 == '-' {
        return Err(crate::Error::new("negative value for an unsigned field"));
    }
    let start: usize = if c0 == '+' { 1 } else { 0 };
    let ghost body = int_body(s@);
    proof {
        assert(body =~= s@.subrange(start as int, n as int));
    }
    if start == n {
        return Err(crate::Error::new("empty integer literal"));
    }
    let mut acc: u64 = 0;
    let mut i: usize = start;
    while i < n
        invariant
            n == s@.len(),
            start <= i <= n,
            start < n,
            body == s@.subrange(start as int, n as int),
            body == int_body(s@),
            !int_is_negative(s@),
            all_digits(s@.subrange(start as int, i as int)),
            acc == digits_val(s@.subrange(start as int, i as int)),
            acc <= u32::MAX,
        decreases n - i,
    {
        let ghost sofar = s@.subrange(start as int, i as int);
        let c = s.get_char(i);
        let u = c as u32;
        if u < 48 || u > 57 {
            proof {
                assert(body[i - start] == s@[i as int]);
                assert(!is_digit_char(s@[i as int]));
                assert(!all_digits(body));
                assert(!is_int_str(s@));
            }
            return Err(crate::Error::new("invalid digit in integer literal"));
        }
        let d = (u - 48) as u64;
        let ghost next = s@.subrange(start as int, i as int + 1);
        proof {
            assert(next.drop_last() =~= sofar);
            assert(next.last() == s@[i as int]);
            assert(all_digits(next));
            assert(digits_val(next) == acc * 10 + d);
        }
        let grown = acc * 10 + d;
        if grown > u32::MAX as u64 {
            proof {
                // the value read so far already exceeds the range, and appending
                // further digits can only increase it
                if all_digits(body) {
                    assert(body.take(i - start + 1) =~= next);
                    lemma_digits_val_mono(body, i - start + 1);
                    assert(digits_val(body) > u32::MAX);
                }
            }
            return Err(crate::Error::new("integer literal out of range"));
        }
        acc = grown;
        i = i + 1;
    }
    proof {
        assert(s@.subrange(start as int, n as int) =~= body);
    }
    Ok(acc as u32)
}

/// Parses a signed decimal integer as `str::parse::<i32>` does.
pub fn parse_i32(s: &str) -> (r: Result<i32, crate::Error>)
    ensures
        r is Ok <==> is_int_str(s@) && i32::MIN <= int_str_val(s@) <= i32::MAX,
        r matches Ok(v) ==> v == int_str_val(s@),
{
    let n = s.unicode_len();
    if n == 0 {
        return Err(crate::Error::new("empty integer literal"));
    }
    let c0 = s.get_char(0);
    let negative = c0 == '-';
    let start: usize = if c0 == '+' || c0 == '-' { 1 } else { 0 };
    let ghost body = int_body(s@);
    proof {
        assert(body =~= s@.subrange(start as int, n as int));
    }
    if start == n {
        return Err(crate::Error::new("empty integer literal"));
    }
    let limit: u64 = if negative { 2147483648 } else { 2147483647 };
    let mut acc: u64 = 0;
    let mut i: usize = start;
    while i < n
        invariant
            n == s@.len(),
            start <= i <= n,
            start < n,
            body == s@.subrange(start as int, n as int),
            body == int_body(s@),
            limit == if negative { 2147483648u64 } else { 2147483647u64 },
            negative == int_is_negative(s@),
            all_digits(s@.subrange(start as int, i as int)),
            acc == digits_val(s@.subrange(start as int, i as int)),
            acc <= limit,
        decreases n - i,
    {
        let ghost sofar = s@.subrange(start as int, i as int);
        let c = s.get_char(i);
        let u = c as u32;
        if u < 48 || u > 57 {
            proof {
                assert(body[i - start] == s@[i as int]);
                assert(!all_digits(body));
            }
            return Err(crate::Error::new("invalid digit in integer literal"));
        }
        let d = (u - 48) as u64;
        let ghost next = s@.subrange(start as int, i as int + 1);
        proof {
            assert(next.drop_last() =~= sofar);
            assert(next.last() == s@[i as int]);
            assert(all_digits(next));
            assert(digits_val(next) == acc * 10 + d);
        }
        let grown = acc * 10 + d;
        if grown > limit {
            proof {
                if all_digits(body) {
                    assert(body.take(i - start + 1) =~= next);
                    lemma_digits_val_mono(body, i - start + 1);
                    assert(digits_val(body) > limit);
                }
            }
            return Err(crate::Error::new("integer literal out of range"));
        }
        acc = grown;
        i = i + 1;
    }
    proof {
        assert(s@.subrange(start as int, n as int) =~= body);
    }
    if negative {
        Ok((-(acc as i64)) as i32)
    } else {
        Ok(acc as i32)
    }
}

// ---------------------------------------------------------------------------
// decimal formatting
// ---------------------------------------------------------------------------

/// The decimal digit characters of a non-negative number, most significant first.
pub open spec fn dec_digits(n: int) -> Seq<char>
    decreases n,
{
    if n < 10 {
        seq![digit_char(n)]
    } else {
        dec_digits(n / 10).push(digit_char(n % 10))
    }
}

fn digit_string(d: u64) -> (r: String)
    requires
        d < 10,
    ensures
        r@ =~= seq![digit_char(d as int)],
{
    proof {
        reveal_strlit("0");
        reveal_strlit("1");
        reveal_strlit("2");
        reveal_strlit("3");
        reveal_strlit("4");
        reveal_strlit("5");
        reveal_strlit("6");
        reveal_strlit("7");
        reveal_strlit("8");
        reveal_strlit("9");
    }
    if d == 0 { String::from_str("0") }
    else if d == 1 { String::from_str("1") }
    else if d == 2 { String::from_str("2") }
    else if d == 3 { String::from_str("3") }
    else if d == 4 { String::from_str("4") }
    else if d == 5 { String::from_str("5") }
    else if d == 6 { String::from_str("6") }
    else if d == 7 { String::from_str("7") }
    else if d == 8 { String::from_str("8") }
    else { String::from_str("9") }
}

pub fn u64_string(n: u64) -> (r: String)
    ensures
        r@ == dec_digits(n as int),
    decreases n,
{
    if n < 10 {
        digit_string(n)
    } else {
        let q = n / 10;
        proof {
            vstd::arithmetic::div_mod::lemma_div_is_strictly_smaller(n as int, 10);
        }
        let mut r = u64_string(q);
        let last = digit_string(n % 10);
        r.append(last.as_str());
        proof {
            assert(r@ =~= dec_digits(n as int / 10).push(digit_char(n as int % 10)));
        }
        r
    }
}

pub fn usize_string(n: usize) -> (r: String)
    ensures
        r@ == dec_digits(n as int),
{
    u64_string(n as u64)
}

/// A number padded with a leading zero to at least two digits.
pub open spec fn pad2_digits(n: int) -> Seq<char> {
    if n < 10 {
        seq!['0', digit_char(n)]
    } else {
        dec_digits(n)
    }
}

pub fn u32_string_pad2(n: u32) -> (r: String)
    ensures
        r@ == pad2_digits(n as int),
{
    if n < 10 {
        let mut r = String::from_str("0");
        let d = digit_string(n as u64);
        r.append(d.as_str());
        proof {
            reveal_strlit("0");
            assert(r@ =~= seq!['0', digit_char(n as int)]);
        }
        r
    } else {
        u64_string(n as u64)
    }
}

/// The decimal rendering of a signed number: a minus sign, if negative,
/// followed by the digits of its magnitude.
pub open spec fn int_digits(n: int) -> Seq<char> {
    if n < 0 {
        seq!['-'] + dec_digits(-n)
    } else {
        dec_digits(n)
    }
}

pub fn i32_string(n: i32) -> (r: String)
    ensures
        r@ == int_digits(n as int),
{
    if n < 0 {
        let mag = (-(n as i64)) as u64;
        let mut r = String::from_str("-");
        let d = u64_string(mag);
        r.append(d.as_str());
        proof {
            reveal_strlit("-");
            assert(r@ =~= seq!['-'] + dec_digits(-(n as int)));
        }
        r
    } else {
        u64_string(n as u64)
    }
}

// ---------------------------------------------------------------------------
// joining
// ---------------------------------------------------------------------------

/// The pieces of `parts` concatenated with `sep` between adjacent pieces.
pub open spec fn join_with(parts: Seq<Seq<char>>, sep: Seq<char>) -> Seq<char>
    decreases parts.len(),
{
    if parts.len() == 0 {
        Seq::empty()
    } else if parts.len() == 1 {
        parts[0]
    } else {
        parts[0] + sep + join_with(parts.drop_first(), sep)
    }
}

pub proof fn lemma_join_push(parts: Seq<Seq<char>>, sep: Seq<char>, x: Seq<char>)
    ensures
        parts.len() == 0 ==> join_with(parts.push(x), sep) == x,
        parts.len() > 0 ==> join_with(parts.push(x), sep) == join_with(parts, sep) + sep + x,
    decreases parts.len(),
{
    if parts.len() == 0 {
        assert(join_with(parts.push(x), sep) == parts.push(x)[0]);
        assert(parts.push(x)[0] == x);
    } else if parts.len() == 1 {
        assert(parts.push(x).drop_first() =~= seq![x]);
        assert(parts.push(x)[0] == parts[0]);
        assert(join_with(seq![x], sep) == seq![x][0]);
        assert(seq![x][0] == x);
        assert(join_with(parts.push(x), sep) == parts.push(x)[0] + sep + join_with(
            parts.push(x).drop_first(),
            sep,
        ));
        assert(join_with(parts, sep) == parts[0]);
    } else {
        lemma_join_push(parts.drop_first(), sep, x);
        assert(parts.push(x).drop_first() =~= parts.drop_first().push(x));
        assert(join_with(parts.push(x), sep) == parts[0] + sep + join_with(
            parts.drop_first().push(x),
            sep,
        ));
        assert((parts[0] + sep + (join_with(parts.drop_first(), sep) + sep + x)) =~= (parts[0] + sep
            + join_with(parts.drop_first(), sep) + sep + x));
    }
}

} // verus!
