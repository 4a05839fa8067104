//! Text: characters, white space, decimal numbers and the order of strings.
use vstd::prelude::*;
use vstd::std_specs::iter::IteratorSpec;

verus! {

broadcast use {vstd::string::group_string_axioms, vstd::utf8::char_is_scalar, vstd::utf8::char_u32_cast};

/// `String::push` appends one character and changes nothing else.
pub assume_specification[ String::push ](s: &mut String, c: char)
    ensures
        final(s)@ == old(s)@.push(c),
;

/// The characters of a string.
pub fn chars_of(s: &str) -> (v: Vec<char>)
    ensures
        v@ == s@,
{
    let mut v: Vec<char> = Vec::new();
    for c in it: s.chars()
        invariant
            it.seq() == s@,
            v@ == s@.take(it.index()),
    {
        v.push(c);
    }
    v
}

/// The string that a run of characters spells.
pub fn text_of(v: &[char]) -> (s: String)
    ensures
        s@ == v@,
{
    let mut s = String::new();
    let mut i: usize = 0;
    while i < v.len()
        invariant
            i <= v.len(),
            s@ == v@.take(i as int),
        decreases v.len() - i,
    {
        s.push(v[i]);
        i += 1;
    }
    assert(v@.take(i as int) =~= v@);
    s
}

/// A list of strings as their characters.
pub open spec fn texts(v: Seq<String>) -> Seq<Seq<char>> {
    v.map_values(|s: String| s@)
}

pub open spec fn opt_text(o: Option<String>) -> Option<Seq<char>> {
    match o {
        Some(s) => Some(s@),
        None => None,
    }
}

pub open spec fn str_text(o: Option<&str>) -> Option<Seq<char>> {
    match o {
        Some(s) => Some(s@),
        None => None,
    }
}

/// Whether two strings hold the same characters.
pub fn same(a: &str, b: &str) -> (r: bool)
    ensures
        r == (a@ == b@),
{
    let mut x = a.chars();
    let mut y = b.chars();
    let ghost mut i: int = 0;
    assert(a@.skip(0) =~= a@);
    assert(b@.skip(0) =~= b@);
    loop
        invariant
            0 <= i <= a@.len(),
            i <= b@.len(),
            x.remaining() == a@.skip(i),
            y.remaining() == b@.skip(i),
            a@.take(i) == b@.take(i),
        decreases a@.len() - i,
    {
        let p = x.next();
        let q = y.next();
        match (p, q) {
            (Some(c), Some(d)) => {
                if c != d {
                    assert(a@[i] != b@[i]);
                    return false;
                }
                proof {
                    assert(a@.skip(i).drop_first() =~= a@.skip(i + 1));
                    assert(b@.skip(i).drop_first() =~= b@.skip(i + 1));
                    assert(a@.take(i + 1) =~= a@.take(i).push(a@[i]));
                    assert(b@.take(i + 1) =~= b@.take(i).push(b@[i]));
                    i = i + 1;
                }
            },
            (None, None) => {
                assert(a@.take(i) =~= a@);
                assert(b@.take(i) =~= b@);
                return true;
            },
            _ => {
                return false;
            },
        }
    }
}

// ----------------------------------------------------------------- letter case

/// What `str::to_lowercase` makes of a text.
pub uninterp spec fn lowercase_text(s: Seq<char>) -> Seq<char>;

/// What `str::to_uppercase` makes of a text.
pub uninterp spec fn uppercase_text(s: Seq<char>) -> Seq<char>;

/// `str::to_lowercase`, the lower-case form that Unicode gives a text. It
/// depends on the text alone.
#[verifier::external_body]
pub(crate) fn to_lowercase(s: &str) -> (r: String)
    ensures
        r@ == lowercase_text(s@),
{
    s.to_lowercase()
}

/// `str::to_uppercase`, the upper-case form that Unicode gives a text. It
/// depends on the text alone.
#[verifier::external_body]
pub(crate) fn to_uppercase(s: &str) -> (r: String)
    ensures
        r@ == uppercase_text(s@),
{
    s.to_uppercase()
}

// ---------------------------------------------------------------- white space

/// The code points of the Unicode property `White_Space`.
pub open spec fn is_white(c: char) -> bool {
    let n = c as u32;
    ||| 0x9 <= n <= 0xd
    ||| n == 0x20
    ||| n == 0x85
    ||| n == 0xa0
    ||| n == 0x1680
    ||| 0x2000 <= n <= 0x200a
    ||| n == 0x2028
    ||| n == 0x2029
    ||| n == 0x202f
    ||| n == 0x205f
    ||| n == 0x3000
}

/// Whether a character is white space.
pub fn white(c: char) -> (r: bool)
    ensures
        r == is_white(c),
{
    let n: u32 = c as u32;
    (0x9 <= n && n <= 0xd) || n == 0x20 || n == 0x85 || n == 0xa0 || n == 0x1680 || (0x2000 <= n
        && n <= 0x200a) || n == 0x2028 || n == 0x2029 || n == 0x202f || n == 0x205f || n == 0x3000
}

/// `s` without the white space at its end.
pub open spec fn trimmed_end(s: Seq<char>) -> Seq<char>
    decreases s.len(),
{
    if s.len() > 0 && is_white(s.last()) {
        trimmed_end(s.drop_last())
    } else {
        s
    }
}

/// `s` without the white space at its start.
pub open spec fn trimmed_start(s: Seq<char>) -> Seq<char>
    decreases s.len(),
{
    if s.len() > 0 && is_white(s[0]) {
        trimmed_start(s.drop_first())
    } else {
        s
    }
}

/// `s` without the white space at its two ends.
pub open spec fn trimmed(s: Seq<char>) -> Seq<char> {
    trimmed_end(trimmed_start(s))
}

/// Drops the white space at the two ends.
pub fn trim(s: &str) -> (r: &str)
    ensures
        r@ == trimmed(s@),
{
    let v = chars_of(s);
    assert(s@.skip(0) =~= s@);
    let mut i: usize = 0;
    while i < v.len() && white(v[i])
        invariant
            i <= v.len(),
            v@ == s@,
            trimmed_start(s@) == trimmed_start(s@.skip(i as int)),
        decreases v.len() - i,
    {
        assert(s@.skip(i as int).drop_first() =~= s@.skip(i + 1));
        i += 1;
    }
    let mut j: usize = v.len();
    while i < j && white(v[j - 1])
        invariant
            i <= j <= v.len(),
            v@ == s@,
            trimmed_end(s@.skip(i as int)) == trimmed_end(s@.subrange(i as int, j as int)),
        decreases j,
    {
        assert(s@.subrange(i as int, j as int).drop_last() =~= s@.subrange(i as int, j - 1));
        j -= 1;
    }
    s.substring_char(i, j)
}

/// Drops the white space at the end.
pub fn trim_end(s: &str) -> (r: &str)
    ensures
        r@ == trimmed_end(s@),
{
    let v = chars_of(s);
    assert(s@.take(s@.len() as int) =~= s@);
    let mut j: usize = v.len();
    while 0 < j && white(v[j - 1])
        invariant
            j <= v.len(),
            v@ == s@,
            trimmed_end(s@) == trimmed_end(s@.take(j as int)),
        decreases j,
    {
        assert(s@.take(j as int).drop_last() =~= s@.take(j - 1));
        j -= 1;
    }
    assert(s@.take(j as int) =~= s@.subrange(0, j as int));
    s.substring_char(0, j)
}

/// Trimming leaves no white space at either end.
pub proof fn trimmed_ends_are_dark(s: Seq<char>)
    ensures
        trimmed(s).len() > 0 ==> !is_white(trimmed(s)[0]) && !is_white(trimmed(s).last()),
{
    lemma_start_dark(s);
    lemma_end_prefix(trimmed_start(s));
}

proof fn lemma_start_dark(s: Seq<char>)
    ensures
        trimmed_start(s).len() > 0 ==> !is_white(trimmed_start(s)[0]),
    decreases s.len(),
{
    if s.len() > 0 && is_white(s[0]) {
        lemma_start_dark(s.drop_first());
    }
}

proof fn lemma_end_prefix(s: Seq<char>)
    ensures
        trimmed_end(s).len() <= s.len(),
        trimmed_end(s) == s.take(trimmed_end(s).len() as int),
        trimmed_end(s).len() > 0 ==> !is_white(trimmed_end(s).last()),
    decreases s.len(),
{
    if s.len() > 0 && is_white(s.last()) {
        lemma_end_prefix(s.drop_last());
        let n = trimmed_end(s.drop_last()).len() as int;
        assert(s.drop_last().take(n) =~= s.take(n));
    } else {
        assert(s.take(s.len() as int) =~= s);
    }
}

/// Trimming twice is trimming once.
pub proof fn trim_is_idempotent(s: Seq<char>)
    ensures
        trimmed(trimmed(s)) == trimmed(s),
{
    trimmed_ends_are_dark(s);
}

// -------------------------------------------------------------------- decimal

/// The digit that stands for `d`.
pub open spec fn digit(d: nat) -> char {
    (48 + d) as u8 as char
}

/// The decimal digits of a natural number, without leading zeros.
pub open spec fn decimal_text(n: nat) -> Seq<char>
    decreases n,
{
    if n < 10 {
        seq![digit(n)]
    } else {
        decimal_text(n / 10).push(digit(n % 10))
    }
}

/// The decimal digits of an integer, with a `-` in front of a negative one.
pub open spec fn integer_text(i: int) -> Seq<char> {
    if i < 0 {
        seq!['-'] + decimal_text((-i) as nat)
    } else {
        decimal_text(i as nat)
    }
}

/// Appends the decimal digits of `n`.
pub fn push_decimal(out: &mut String, n: u128)
    ensures
        final(out)@ == old(out)@ + decimal_text(n as nat),
    decreases n,
{
    let ghost before = out@;
    if n >= 10 {
        push_decimal(out, n / 10);
    }
    let d: u8 = (n % 10) as u8;
    out.push((48 + d) as char);
    assert(out@ =~= before + decimal_text(n as nat));
}

/// Appends an integer in decimal.
pub fn push_integer(out: &mut String, i: i64)
    ensures
        final(out)@ == old(out)@ + integer_text(i as int),
{
    if i < 0 {
        let ghost before = out@;
        out.push('-');
        let m: u128 = (-(i as i128)) as u128;
        push_decimal(out, m);
        assert(out@ =~= before + integer_text(i as int));
    } else {
        push_decimal(out, i as u128);
    }
}

/// A natural number in decimal.
pub fn decimal(n: u128) -> (s: String)
    ensures
        s@ == decimal_text(n as nat),
{
    let mut s = String::new();
    push_decimal(&mut s, n);
    assert(Seq::<char>::empty() + decimal_text(n as nat) =~= decimal_text(n as nat));
    s
}

pub open spec fn is_digit(c: char) -> bool {
    48 <= c as u32 <= 57
}

pub open spec fn all_digits(s: Seq<char>) -> bool {
    forall|i: int| 0 <= i < s.len() ==> is_digit(#[trigger] s[i])
}

/// The number that a run of decimal digits stands for.
pub open spec fn digits_value(s: Seq<char>) -> nat
    decreases s.len(),
{
    if s.len() == 0 {
        0
    } else {
        (digits_value(s.drop_last()) * 10 + (s.last() as u32 - 48)) as nat
    }
}

/// The number that decimal text stands for: an optional `+`, then digits.
pub open spec fn parsed_natural(s: Seq<char>) -> Option<nat> {
    let d = if s.len() > 0 && s[0] == '+' {
        s.skip(1)
    } else {
        s
    };
    if d.len() > 0 && all_digits(d) {
        Some(digits_value(d))
    } else {
        None
    }
}

/// The number that decimal text stands for: an optional sign, then digits.
pub open spec fn parsed_integer(s: Seq<char>) -> Option<int> {
    if s.len() > 0 && s[0] == '-' {
        if s.len() > 1 && all_digits(s.skip(1)) {
            Some(-digits_value(s.skip(1)))
        } else {
            None
        }
    } else {
        match parsed_natural(s) {
            Some(n) => Some(n as int),
            None => None,
        }
    }
}

pub proof fn lemma_digits_value_grows(s: Seq<char>, k: int)
    requires
        all_digits(s),
        0 <= k <= s.len(),
    ensures
        digits_value(s.take(k)) <= digits_value(s),
    decreases s.len() - k,
{
    if k < s.len() {
        lemma_digits_value_grows(s, k + 1);
        assert(s.take(k + 1).drop_last() =~= s.take(k));
        assert(is_digit(s[k]));
    } else {
        assert(s.take(k) =~= s);
    }
}

/// Reads the digits `v[lo..]` as a number no larger than `limit`.
pub fn parse_digits(v: &[char], lo: usize, limit: u64) -> (r: Option<u64>)
    requires
        lo <= v.len(),
        limit <= 0xffff_ffff_ffff_ffff,
    ensures
        r == (if lo < v.len() && all_digits(v@.skip(lo as int)) && digits_value(v@.skip(lo as int))
            <= limit {
            Some(digits_value(v@.skip(lo as int)) as u64)
        } else {
            None
        }),
{
    if lo == v.len() {
        return None;
    }
    let ghost d = v@.skip(lo as int);
    let mut n: u64 = 0;
    let mut i: usize = lo;
    while i < v.len()
        invariant
            lo <= i <= v.len(),
            d == v@.skip(lo as int),
            n == digits_value(d.take(i - lo)),
            all_digits(d.take(i - lo)),
            n <= limit,
        decreases v.len() - i,
    {
        let c: u32 = v[i] as u32;
        if c < 48 || c > 57 {
            assert(!is_digit(d[i - lo]));
            return None;
        }
        let wide: u128 = n as u128 * 10 + (c - 48) as u128;
        assert(d.take(i - lo + 1).drop_last() =~= d.take(i - lo));
        assert(wide == digits_value(d.take(i - lo + 1)));
        if wide > limit as u128 {
            proof {
                if all_digits(d) {
                    lemma_digits_value_grows(d, i - lo + 1);
                }
            }
            return None;
        }
        n = wide as u64;
        i += 1;
    }
    assert(d.take(i - lo) =~= d);
    Some(n)
}

/// Reads an unsigned number as `u64`.
pub fn parse_u64(s: &str) -> (r: Option<u64>)
    ensures
        r == (match parsed_natural(s@) {
            Some(n) => if n <= u64::MAX {
                Some(n as u64)
            } else {
                None
            },
            None => None,
        }),
{
    let v = chars_of(s);
    let lo: usize = if v.len() > 0 && v[0] == '+' {
        1
    } else {
        0
    };
    assert(s@.skip(0) =~= s@);
    parse_digits(&v, lo, u64::MAX)
}

/// Reads a signed number that lies between `-limit - 1` and `limit`.
pub fn parse_signed(v: &[char], limit: u64) -> (r: Option<i128>)
    requires
        limit < u64::MAX,
    ensures
        r == (match parsed_integer(v@) {
            Some(n) => if -limit - 1 <= n <= limit {
                Some(n as i128)
            } else {
                None
            },
            None => None,
        }),
{
    if v.len() > 0 && v[0] == '-' {
        match parse_digits(v, 1, limit + 1) {
            Some(n) => Some(-(n as i128)),
            None => None,
        }
    } else {
        let lo: usize = if v.len() > 0 && v[0] == '+' {
            1
        } else {
            0
        };
        assert(v@.skip(0) =~= v@);
        match parse_digits(v, lo, limit) {
            Some(n) => Some(n as i128),
            None => None,
        }
    }
}

/// Reads a number as `i32`.
pub fn parse_i32(s: &str) -> (r: Option<i32>)
    ensures
        r == (match parsed_integer(s@) {
            Some(n) => if i32::MIN <= n <= i32::MAX {
                Some(n as i32)
            } else {
                None
            },
            None => None,
        }),
{
    let v = chars_of(s);
    match parse_signed(&v, 0x7fff_ffff) {
        Some(n) => Some(n as i32),
        None => None,
    }
}

/// Reading what was written gives the number back.
pub proof fn decimal_round_trip(n: nat)
    ensures
        decimal_text(n).len() > 0,
        all_digits(decimal_text(n)),
        digits_value(decimal_text(n)) == n,
        parsed_natural(decimal_text(n)) == Some(n),
        parsed_integer(decimal_text(n)) == Some(n as int),
    decreases n,
{
    reveal_with_fuel(digits_value, 2);
    if n >= 10 {
        decimal_round_trip(n / 10);
        assert(decimal_text(n).drop_last() =~= decimal_text(n / 10));
    } else {
        assert(decimal_text(n).drop_last() =~= Seq::<char>::empty());
    }
    let t = decimal_text(n);
    assert forall|i: int| 0 <= i < t.len() implies is_digit(#[trigger] t[i]) by {
        if n >= 10 && i < t.len() - 1 {
            assert(is_digit(decimal_text(n / 10)[i]));
        }
    }
    assert(is_digit(t[0]));
}

// ---------------------------------------------------------------------- order

/// Whether `a` stands before `b` where strings are ordered by their characters.
pub open spec fn precedes(a: Seq<char>, b: Seq<char>) -> bool
    decreases a.len(),
{
    if b.len() == 0 {
        false
    } else if a.len() == 0 {
        true
    } else {
        (a[0] as u32) < (b[0] as u32) || (a[0] == b[0] && precedes(a.drop_first(), b.drop_first()))
    }
}

pub proof fn lemma_precedes_irreflexive(a: Seq<char>)
    ensures
        !precedes(a, a),
    decreases a.len(),
{
    if a.len() > 0 {
        lemma_precedes_irreflexive(a.drop_first());
    }
}

pub proof fn lemma_precedes_total(a: Seq<char>, b: Seq<char>)
    ensures
        precedes(a, b) || precedes(b, a) || a == b,
    decreases a.len(),
{
    if a.len() > 0 && b.len() > 0 {
        lemma_precedes_total(a.drop_first(), b.drop_first());
        vstd::utf8::char_u32_cast(a[0], a[0] as u32);
        vstd::utf8::char_u32_cast(b[0], b[0] as u32);
        if a[0] == b[0] && a.drop_first() == b.drop_first() {
            assert(a =~= seq![a[0]] + a.drop_first());
            assert(b =~= seq![b[0]] + b.drop_first());
        }
    } else if a.len() == 0 && b.len() == 0 {
        assert(a =~= b);
    }
}

pub proof fn lemma_precedes_transitive(a: Seq<char>, b: Seq<char>, c: Seq<char>)
    requires
        precedes(a, b),
        precedes(b, c),
    ensures
        precedes(a, c),
    decreases a.len(),
{
    if a.len() > 0 && a[0] == b[0] && b[0] == c[0] {
        lemma_precedes_transitive(a.drop_first(), b.drop_first(), c.drop_first());
    }
}

/// The first place where two texts differ decides their order.
pub proof fn lemma_precedes_at(a: Seq<char>, b: Seq<char>, k: int)
    requires
        0 <= k < a.len(),
        k < b.len(),
        forall|i: int| 0 <= i < k ==> a[i] == b[i],
        (a[k] as u32) < (b[k] as u32),
    ensures
        precedes(a, b),
    decreases k,
{
    if k > 0 {
        lemma_precedes_at(a.drop_first(), b.drop_first(), k - 1);
    }
}

/// Whether `a` stands before `b`.
pub fn less(a: &str, b: &str) -> (r: bool)
    ensures
        r == precedes(a@, b@),
{
    let mut x = a.chars();
    let mut y = b.chars();
    let ghost mut i: int = 0;
    assert(a@.skip(0) =~= a@);
    assert(b@.skip(0) =~= b@);
    loop
        invariant
            0 <= i <= a@.len(),
            i <= b@.len(),
            x.remaining() == a@.skip(i),
            y.remaining() == b@.skip(i),
            precedes(a@, b@) == precedes(a@.skip(i), b@.skip(i)),
        decreases a@.len() - i,
    {
        let p = x.next();
        let q = y.next();
        match (p, q) {
            (Some(c), Some(d)) => {
                if c != d {
                    return (c as u32) < (d as u32);
                }
                proof {
                    assert(a@.skip(i).drop_first() =~= a@.skip(i + 1));
                    assert(b@.skip(i).drop_first() =~= b@.skip(i + 1));
                    i = i + 1;
                }
            },
            (None, Some(_)) => {
                return true;
            },
            _ => {
                return false;
            },
        }
    }
}

// --------------------------------------------------------------------- search

/// Whether `needle` stands in `hay` from place `i` on.
pub open spec fn occurs_at<T>(hay: Seq<T>, needle: Seq<T>, i: int) -> bool {
    0 <= i && i + needle.len() <= hay.len() && hay.subrange(i, i + needle.len()) == needle
}

/// Whether `needle` stands somewhere in `hay`.
pub open spec fn contains_text(hay: Seq<char>, needle: Seq<char>) -> bool {
    exists|i: int| #[trigger] occurs_at(hay, needle, i)
}

pub open spec fn begins_with(s: Seq<char>, p: Seq<char>) -> bool {
    occurs_at(s, p, 0)
}

pub open spec fn finishes_with(s: Seq<char>, p: Seq<char>) -> bool {
    occurs_at(s, p, s.len() - p.len())
}

/// Whether the characters `needle` stand in `hay` from place `i` on.
pub fn matches_at(hay: &[char], needle: &[char], i: usize) -> (r: bool)
    ensures
        r == occurs_at(hay@, needle@, i as int),
{
    if needle.len() > hay.len() || i > hay.len() - needle.len() {
        return false;
    }
    let mut k: usize = 0;
    while k < needle.len()
        invariant
            k <= needle.len(),
            i + needle.len() <= hay.len(),
            forall|j: int| 0 <= j < k ==> hay@[i + j] == needle@[j],
        decreases needle.len() - k,
    {
        if hay[i + k] != needle[k] {
            assert(hay@.subrange(i as int, i + needle.len())[k as int] != needle@[k as int]);
            return false;
        }
        k += 1;
    }
    assert(hay@.subrange(i as int, i + needle.len()) =~= needle@);
    true
}

/// Whether `needle` stands somewhere in `hay`.
pub fn contains(hay: &str, needle: &str) -> (r: bool)
    ensures
        r == contains_text(hay@, needle@),
{
    let h = chars_of(hay);
    let n = chars_of(needle);
    if n.len() > h.len() {
        return false;
    }
    let mut i: usize = 0;
    while i <= h.len() - n.len()
        invariant
            h@ == hay@,
            n@ == needle@,
            n.len() <= h.len(),
            i <= h.len() - n.len() + 1,
            forall|j: int| 0 <= j < i ==> !#[trigger] occurs_at(hay@, needle@, j),
        decreases h.len() - i + 1,
    {
        if matches_at(&h, &n, i) {
            return true;
        }
        if i == h.len() - n.len() {
            return false;
        }
        i += 1;
    }
    false
}

pub fn starts_with(s: &str, p: &str) -> (r: bool)
    ensures
        r == begins_with(s@, p@),
{
    let h = chars_of(s);
    let n = chars_of(p);
    matches_at(&h, &n, 0)
}

pub fn ends_with(s: &str, p: &str) -> (r: bool)
    ensures
        r == finishes_with(s@, p@),
{
    let h = chars_of(s);
    let n = chars_of(p);
    if n.len() > h.len() {
        return false;
    }
    matches_at(&h, &n, h.len() - n.len())
}

// ------------------------------------------------------------------------ laws

/// What trimming takes away is white space: text is what is left of it with
/// nothing but white space before and after.
pub proof fn trimming_takes_white_space_alone(s: Seq<char>) -> (i: int)
    ensures
        0 <= i,
        i + trimmed(s).len() <= s.len(),
        trimmed(s) == s.subrange(i, i + trimmed(s).len()),
        forall|k: int| 0 <= k < i ==> is_white(#[trigger] s[k]),
        forall|k: int| i + trimmed(s).len() <= k < s.len() ==> is_white(#[trigger] s[k]),
{
    let i = lemma_start_suffix(s);
    let t = trimmed_start(s);
    lemma_end_prefix(t);
    lemma_end_white(t);
    let n = trimmed(s).len() as int;
    assert(t == s.skip(i));
    assert(trimmed(s) =~= s.subrange(i, i + n));
    assert forall|k: int| i + n <= k < s.len() implies is_white(#[trigger] s[k]) by {
        assert(t[k - i] == s[k]);
    }
    i
}

proof fn lemma_start_suffix(s: Seq<char>) -> (i: int)
    ensures
        0 <= i <= s.len(),
        trimmed_start(s) == s.skip(i),
        forall|k: int| 0 <= k < i ==> is_white(#[trigger] s[k]),
    decreases s.len(),
{
    if s.len() > 0 && is_white(s[0]) {
        let j = lemma_start_suffix(s.drop_first());
        assert(s.drop_first().skip(j) =~= s.skip(j + 1));
        assert forall|k: int| 0 <= k < j + 1 implies is_white(#[trigger] s[k]) by {
            if k > 0 {
                assert(s.drop_first()[k - 1] == s[k]);
            }
        }
        j + 1
    } else {
        assert(s.skip(0) =~= s);
        0
    }
}

proof fn lemma_end_white(s: Seq<char>)
    ensures
        forall|k: int| trimmed_end(s).len() <= k < s.len() ==> is_white(#[trigger] s[k]),
    decreases s.len(),
{
    if s.len() > 0 && is_white(s.last()) {
        lemma_end_white(s.drop_last());
        assert forall|k: int| trimmed_end(s).len() <= k < s.len() implies is_white(
            #[trigger] s[k],
        ) by {
            if k < s.len() - 1 {
                assert(s.drop_last()[k] == s[k]);
            }
        }
    }
}

/// Text is blank exactly where it has nothing but white space.
pub proof fn blank_text_is_white(s: Seq<char>)
    ensures
        trimmed(s).len() == 0 <==> forall|k: int| 0 <= k < s.len() ==> is_white(#[trigger] s[k]),
{
    let i = trimming_takes_white_space_alone(s);
    trimmed_ends_are_dark(s);
    if trimmed(s).len() > 0 {
        assert(trimmed(s)[0] == s[i]);
    }
}

/// Text that goes on stands after text that ends.
pub proof fn beginnings_come_first(a: Seq<char>, b: Seq<char>)
    requires
        b.len() > 0,
    ensures
        precedes(a, a + b),
        !precedes(a + b, a),
    decreases a.len(),
{
    if a.len() > 0 {
        beginnings_come_first(a.drop_first(), b);
        assert((a + b).drop_first() =~= a.drop_first() + b);
    } else {
        assert(a + b =~= b);
    }
}

/// Of two texts at most one stands before the other.
pub proof fn order_is_one_way(a: Seq<char>, b: Seq<char>)
    ensures
        !(precedes(a, b) && precedes(b, a)),
{
    if precedes(a, b) && precedes(b, a) {
        lemma_precedes_transitive(a, b, a);
        lemma_precedes_irreflexive(a);
    }
}

/// Text holds whatever it was put together from.
pub proof fn text_holds_its_parts(before: Seq<char>, part: Seq<char>, after: Seq<char>)
    ensures
        contains_text(before + part + after, part),
        begins_with(part + after, part),
        finishes_with(before + part, part),
{
    let all = before + part + after;
    let n = before.len() as int;
    assert(all.subrange(n, n + part.len()) =~= part);
    assert(occurs_at(all, part, n));
    assert((part + after).subrange(0, part.len() as int) =~= part);
    assert((before + part).subrange(n, n + part.len()) =~= part);
}

/// Text that holds a part is that part with something, or nothing, before and
/// after it.
pub proof fn held_text_is_a_part(hay: Seq<char>, needle: Seq<char>) -> (r: (Seq<char>, Seq<char>))
    requires
        contains_text(hay, needle),
    ensures
        hay == r.0 + needle + r.1,
{
    let i = choose|i: int| #[trigger] occurs_at(hay, needle, i);
    let r = (hay.take(i), hay.skip(i + needle.len()));
    assert(hay =~= r.0 + hay.subrange(i, i + needle.len()) + r.1);
    r
}

/// A beginning and an ending are the first and the last characters.
pub proof fn beginnings_and_endings(s: Seq<char>, p: Seq<char>)
    ensures
        begins_with(s, p) <==> p.len() <= s.len() && s.take(p.len() as int) == p,
        finishes_with(s, p) <==> p.len() <= s.len() && s.skip(s.len() - p.len()) == p,
{
    if p.len() <= s.len() {
        assert(s.subrange(0, p.len() as int) =~= s.take(p.len() as int));
        assert(s.subrange(s.len() - p.len(), s.len() as int) =~= s.skip(s.len() - p.len()));
    }
}

/// A number is written without a zero in front of it, and what is written for
/// an integer reads back as that integer.
pub proof fn integers_read_back(i: int)
    ensures
        parsed_integer(integer_text(i)) == Some(i),
        i >= 0 ==> all_digits(integer_text(i)),
        i >= 10 ==> integer_text(i)[0] != '0',
        i < 0 ==> integer_text(i)[0] == '-' && integer_text(i).skip(1) == integer_text(-i),
{
    let n: nat = if i < 0 {
        (-i) as nat
    } else {
        i as nat
    };
    decimal_round_trip(n);
    lemma_no_leading_zero(n);
    let d = decimal_text(n);
    if i < 0 {
        assert(integer_text(i).skip(1) =~= d);
    } else {
        assert(is_digit(d[0]));
    }
}

proof fn lemma_no_leading_zero(n: nat)
    ensures
        decimal_text(n).len() > 0,
        n > 0 ==> decimal_text(n)[0] != '0',
    decreases n,
{
    if n >= 10 {
        lemma_no_leading_zero(n / 10);
        assert(decimal_text(n)[0] == decimal_text(n / 10)[0]);
    } else if n > 0 {
        assert(decimal_text(n)[0] == digit(n));
        assert(digit(n) as u32 == 48 + n);
    }
}

/// A sign in front of digits gives the number its sign; text with anything else
/// in it stands for no number.
pub proof fn signs_are_read(d: Seq<char>)
    ensures
        d.len() > 0 && all_digits(d) ==> parsed_integer(d) == Some(digits_value(d) as int)
            && parsed_integer(seq!['+'] + d) == Some(digits_value(d) as int) && parsed_integer(
            seq!['-'] + d,
        ) == Some(-digits_value(d)),
        parsed_integer(seq![]) is None,
        parsed_integer(d) is Some ==> forall|k: int| 0 < k < d.len() ==> is_digit(#[trigger] d[k]),
{
    let (p, m) = (seq!['+'] + d, seq!['-'] + d);
    assert(p.skip(1) =~= d);
    assert(m.skip(1) =~= d);
    if d.len() > 0 && all_digits(d) {
        assert(is_digit(d[0]));
    }
    if parsed_integer(d) is Some {
        assert forall|k: int| 0 < k < d.len() implies is_digit(#[trigger] d[k]) by {
            assert(d.skip(1)[k - 1] == d[k]);
        }
    }
}

/// Below code point 128 white space is the space and what moves the cursor: tab,
/// line feed and the three after it. No letter, digit or sign is.
pub proof fn ascii_white_space_is_six_characters(c: char)
    requires
        (c as u32) < 128,
    ensures
        is_white(c) <==> c == ' ' || 9 <= c as u32 <= 13,
{
}

} // verus!
