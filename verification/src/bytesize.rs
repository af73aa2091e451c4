//! Byte counts written as text such as `1G2M3K4B`.
use vstd::prelude::*;

verus! {

pub const BYTESIZE_K: usize = 1024;
pub const BYTESIZE_M: usize = 1048576;
pub const BYTESIZE_G: usize = 1073741824;

/// The number of distinct `usize` values.
pub open spec fn word_range() -> int {
    usize::MAX as int + 1
}

// ----------------------------------------------------------------------------
// Decimal numerals

pub open spec fn is_digit(c: char) -> bool {
    '0' <= c && c <= '9'
}

pub open spec fn digit_value(c: char) -> int {
    c as int - '0' as int
}

pub open spec fn digit_char(d: int) -> char {
    if d == 0 {
        '0'
    } else if d == 1 {
        '1'
    } else if d == 2 {
        '2'
    } else if d == 3 {
        '3'
    } else if d == 4 {
        '4'
    } else if d == 5 {
        '5'
    } else if d == 6 {
        '6'
    } else if d == 7 {
        '7'
    } else if d == 8 {
        '8'
    } else {
        '9'
    }
}

/// The decimal numeral of `n`, without leading zeros.
pub open spec fn decimal(n: nat) -> Seq<char>
    decreases n,
{
    if n < 10 {
        seq![digit_char(n as int)]
    } else {
        decimal(n / 10).push(digit_char((n % 10) as int))
    }
}

/// The number that a string of digits denotes.
pub open spec fn digits_value(s: Seq<char>) -> int
    decreases s.len(),
{
    if s.len() == 0 {
        0
    } else {
        digits_value(s.drop_last()) * 10 + digit_value(s.last())
    }
}

pub open spec fn all_digits(s: Seq<char>) -> bool {
    forall|i: int| 0 <= i < s.len() ==> is_digit(#[trigger] s[i])
}

/// What `str::parse::<usize>` gives: an optional `+`, then one or more digits
/// whose value fits in a `usize`.
pub open spec fn parse_usize(s: Seq<char>) -> Option<int> {
    let d = if s.len() > 0 && s[0] == '+' { s.skip(1) } else { s };
    if d.len() > 0 && all_digits(d) && digits_value(d) <= usize::MAX {
        Some(digits_value(d))
    } else {
        None
    }
}

// ----------------------------------------------------------------------------
// Byte-size text

pub open spec fn is_unit(c: char) -> bool {
    c == 'G' || c == 'M' || c == 'K' || c == 'B'
}

pub open spec fn unit_factor(c: char) -> int {
    if c == 'B' {
        1
    } else if c == 'K' {
        BYTESIZE_K as int
    } else if c == 'M' {
        BYTESIZE_M as int
    } else if c == 'G' {
        BYTESIZE_G as int
    } else {
        0
    }
}

/// One term of the text: a count (if present) with its unit.
pub open spec fn part(n: nat, unit: char) -> Seq<char> {
    if n > 0 {
        decimal(n).push(unit)
    } else {
        Seq::<char>::empty()
    }
}

/// The text of a byte count: gigabytes, megabytes, kilobytes and bytes, each
/// term left out when it is zero.
pub open spec fn bytesize_text(v: nat) -> Seq<char> {
    let g = v / (BYTESIZE_G as nat);
    let r1 = v % (BYTESIZE_G as nat);
    let m = r1 / (BYTESIZE_M as nat);
    let r2 = r1 % (BYTESIZE_M as nat);
    let k = r2 / (BYTESIZE_K as nat);
    let b = r2 % (BYTESIZE_K as nat);
    part(g, 'G') + part(m, 'M') + part(k, 'K') + part(b, 'B')
}

/// ASCII lower-case letters become upper case; other characters stay.
pub open spec fn upper_ascii(c: char) -> char {
    if 'a' <= c && c <= 'z' {
        (c as int - 32) as char
    } else {
        c
    }
}

pub open spec fn upper(s: Seq<char>) -> Seq<char> {
    s.map_values(|c: char| upper_ascii(c))
}

/// Replaces each `aB`, left to right and without overlap, by `a`.
pub open spec fn drop_b_after(s: Seq<char>, a: char) -> Seq<char>
    decreases s.len(),
{
    if s.len() < 2 {
        s
    } else if s[0] == a && s[1] == 'B' {
        seq![a] + drop_b_after(s.skip(2), a)
    } else {
        seq![s[0]] + drop_b_after(s.skip(1), a)
    }
}

/// Upper case, with `GB`, `MB` and `KB` shortened to `G`, `M` and `K`.
pub open spec fn normalize(s: Seq<char>) -> Seq<char> {
    drop_b_after(drop_b_after(drop_b_after(upper(s), 'G'), 'M'), 'K')
}

/// Index of the first unit letter of `s`, or -1 when there is none.
pub open spec fn first_unit(s: Seq<char>) -> int
    decreases s.len(),
{
    if s.len() == 0 {
        -1
    } else if is_unit(s[0]) {
        0
    } else {
        let r = first_unit(s.skip(1));
        if r < 0 {
            -1
        } else {
            r + 1
        }
    }
}

/// The value of one segment: the count before its last character, times the
/// factor of that character; zero when either is not valid.
pub open spec fn segment_value(seg: Seq<char>) -> int {
    match parse_usize(seg.drop_last()) {
        Some(v) => v * unit_factor(seg.last()),
        None => 0,
    }
}

/// The sum of the values of the segments of `t`, each segment ending at a unit
/// letter, the last one possibly at the end of the text.
pub open spec fn text_total(t: Seq<char>) -> int
    decreases t.len(),
{
    if t.len() == 0 {
        0
    } else {
        let j = first_unit(t);
        if j < 0 {
            segment_value(t)
        } else {
            proof {
                lemma_first_unit(t);
            }
            segment_value(t.subrange(0, j + 1)) + text_total(t.skip(j + 1))
        }
    }
}

/// The byte count that a text denotes, wrapping around on overflow.
pub open spec fn parse_bytesize(s: Seq<char>) -> int {
    text_total(normalize(s)) % word_range()
}

// ----------------------------------------------------------------------------
// Lemmas

pub proof fn lemma_first_unit(s: Seq<char>)
    ensures
        -1 <= first_unit(s) < s.len(),
        first_unit(s) == -1 ==> forall|i: int| 0 <= i < s.len() ==> !is_unit(#[trigger] s[i]),
        first_unit(s) >= 0 ==> is_unit(s[first_unit(s)]),
        first_unit(s) >= 0 ==> forall|i: int| 0 <= i < first_unit(s) ==> !is_unit(#[trigger] s[i]),
    decreases s.len(),
{
    if s.len() > 0 && !is_unit(s[0]) {
        lemma_first_unit(s.skip(1));
        assert forall|i: int| 0 < i < s.len() implies s[i] == s.skip(1)[i - 1] by {}
    }
}

/// The first unit letter is where the characterization says it is.
pub proof fn lemma_first_unit_at(s: Seq<char>, j: int)
    requires
        -1 <= j < s.len(),
        j == -1 ==> forall|i: int| 0 <= i < s.len() ==> !is_unit(#[trigger] s[i]),
        j >= 0 ==> is_unit(s[j]),
        j >= 0 ==> forall|i: int| 0 <= i < j ==> !is_unit(#[trigger] s[i]),
    ensures
        first_unit(s) == j,
{
    lemma_first_unit(s);
    let f = first_unit(s);
    if f >= 0 && j >= 0 {
        if f < j {
            assert(!is_unit(s[f]));
        } else if j < f {
            assert(!is_unit(s[j]));
        }
    } else if f >= 0 {
        assert(!is_unit(s[f]));
    } else if j >= 0 {
        assert(!is_unit(s[j]));
    }
}

/// A text made of whole segments adds up segment by segment.
pub proof fn lemma_total_concat(a: Seq<char>, b: Seq<char>)
    requires
        a.len() == 0 || is_unit(a.last()),
    ensures
        text_total(a + b) == text_total(a) + text_total(b),
    decreases a.len(),
{
    if a.len() == 0 {
        assert(a + b =~= b);
    } else {
        lemma_first_unit(a);
        let j = first_unit(a);
        assert(j >= 0) by {
            if j == -1 {
                assert(!is_unit(a[a.len() - 1]));
            }
        }
        let ab = a + b;
        assert forall|i: int| 0 <= i < j implies !is_unit(#[trigger] ab[i]) by {
            assert(ab[i] == a[i]);
        }
        lemma_first_unit_at(ab, j);
        assert(ab.subrange(0, j + 1) =~= a.subrange(0, j + 1));
        let rest = a.skip(j + 1);
        assert(ab.skip(j + 1) =~= rest + b);
        if rest.len() > 0 {
            assert(rest.last() == a.last());
        }
        lemma_total_concat(rest, b);
    }
}

/// A segment with no unit letter before its last character.
pub proof fn lemma_total_single(s: Seq<char>)
    requires
        s.len() > 0,
        forall|i: int| 0 <= i < s.len() - 1 ==> !is_unit(#[trigger] s[i]),
    ensures
        text_total(s) == segment_value(s),
{
    if is_unit(s.last()) {
        lemma_first_unit_at(s, s.len() - 1);
        assert(s.subrange(0, s.len() as int) =~= s);
        assert(s.skip(s.len() as int) =~= Seq::<char>::empty());
        assert(text_total(s.skip(s.len() as int)) == 0);
    } else {
        assert forall|i: int| 0 <= i < s.len() implies !is_unit(#[trigger] s[i]) by {
            if i == s.len() - 1 {
                assert(s[i] == s.last());
            }
        }
        lemma_first_unit_at(s, -1);
    }
}

pub proof fn lemma_decimal(n: nat)
    ensures
        decimal(n).len() > 0,
        all_digits(decimal(n)),
        digits_value(decimal(n)) == n,
    decreases n,
{
    let c = digit_char((n % 10) as int);
    assert(digit_value(c) == n % 10);
    assert(is_digit(c));
    if n >= 10 {
        lemma_decimal(n / 10);
        let d = decimal(n / 10).push(c);
        assert(d.drop_last() =~= decimal(n / 10));
        assert(digits_value(d) == digits_value(decimal(n / 10)) * 10 + digit_value(c));
        assert((n / 10) * 10 + n % 10 == n);
    } else {
        let d = seq![c];
        assert(d.drop_last() =~= Seq::<char>::empty());
        assert(digits_value(d.drop_last()) == 0);
        assert(n % 10 == n);
    }
}

pub proof fn lemma_parse_decimal(n: nat)
    requires
        n <= usize::MAX,
    ensures
        parse_usize(decimal(n)) == Some(n as int),
{
    lemma_decimal(n);
    assert(is_digit(decimal(n)[0]));
}

/// Appending a digit never lowers the value of a digit string.
pub proof fn lemma_digits_value_grows(s: Seq<char>, k: int)
    requires
        all_digits(s),
        0 <= k <= s.len(),
    ensures
        digits_value(s.subrange(0, k)) <= digits_value(s),
        0 <= digits_value(s.subrange(0, k)),
    decreases s.len(),
{
    if k < s.len() {
        lemma_digits_value_grows(s.drop_last(), k);
        assert(s.drop_last().subrange(0, k) =~= s.subrange(0, k));
        assert(is_digit(s.last()));
    } else {
        assert(s.subrange(0, k) =~= s);
        lemma_digits_nonneg(s);
    }
}

pub proof fn lemma_digits_nonneg(s: Seq<char>)
    requires
        all_digits(s),
    ensures
        0 <= digits_value(s),
    decreases s.len(),
{
    if s.len() > 0 {
        lemma_digits_nonneg(s.drop_last());
        assert(is_digit(s.last()));
    }
}

/// A `B` at `i + 1` follows a digit at `i`.
pub open spec fn b_after_digit(s: Seq<char>, i: int) -> bool {
    s[i + 1] == 'B' ==> is_digit(s[i])
}

/// Every `B` of `s` follows a digit.
pub open spec fn bs_after_digits(s: Seq<char>) -> bool {
    &&& forall|i: int| 0 <= i < s.len() - 1 ==> #[trigger] b_after_digit(s, i)
    &&& s.len() > 0 ==> s[0] != 'B'
}

/// Text of digits and upper-case unit letters in which every `B` follows a digit.
pub open spec fn tidy(s: Seq<char>) -> bool {
    &&& forall|i: int| 0 <= i < s.len() ==> is_digit(#[trigger] s[i]) || is_unit(s[i])
    &&& bs_after_digits(s)
}

pub proof fn lemma_part_tidy(n: nat, u: char)
    requires
        is_unit(u),
    ensures
        tidy(part(n, u)),
        part(n, u).len() == 0 || is_unit(part(n, u).last()),
        n > 0 ==> part(n, u).drop_last() == decimal(n),
{
    if n > 0 {
        lemma_decimal(n);
        let p = part(n, u);
        assert(p.drop_last() =~= decimal(n));
        assert(is_digit(decimal(n)[0]));
        assert forall|i: int| 0 <= i < p.len() - 1 implies #[trigger] b_after_digit(p, i) by {
            assert(p[i] == decimal(n)[i]);
            assert(is_digit(decimal(n)[i]));
            if i + 1 < p.len() - 1 {
                assert(p[i + 1] == decimal(n)[i + 1]);
                assert(is_digit(decimal(n)[i + 1]));
            }
        }
        assert forall|i: int| 0 <= i < p.len() implies is_digit(#[trigger] p[i]) || is_unit(p[i]) by {
            if i < p.len() - 1 {
                assert(p[i] == decimal(n)[i]);
            }
        }
    }
}

pub proof fn lemma_tidy_concat(a: Seq<char>, b: Seq<char>)
    requires
        tidy(a),
        tidy(b),
    ensures
        tidy(a + b),
{
    let ab = a + b;
    assert forall|i: int| 0 <= i < ab.len() implies is_digit(#[trigger] ab[i]) || is_unit(ab[i]) by {
        if i < a.len() {
            assert(ab[i] == a[i]);
        } else {
            assert(ab[i] == b[i - a.len()]);
        }
    }
    assert forall|i: int| 0 <= i < ab.len() - 1 implies #[trigger] b_after_digit(ab, i) by {
        if i + 1 < a.len() {
            assert(b_after_digit(a, i));
            assert(ab[i] == a[i]);
            assert(ab[i + 1] == a[i + 1]);
        } else if i + 1 == a.len() {
            assert(ab[i + 1] == b[0]);
        } else {
            assert(b_after_digit(b, i - a.len()));
            assert(ab[i] == b[i - a.len()]);
            assert(ab[i + 1] == b[i + 1 - a.len()]);
        }
    }
    if ab.len() > 0 {
        if a.len() > 0 {
            assert(ab[0] == a[0]);
        } else {
            assert(ab[0] == b[0]);
        }
    }
}

pub proof fn lemma_drop_b_identity(s: Seq<char>, a: char)
    requires
        !is_digit(a),
        forall|i: int| 0 <= i < s.len() - 1 ==> #[trigger] b_after_digit(s, i),
    ensures
        drop_b_after(s, a) == s,
    decreases s.len(),
{
    if s.len() >= 2 {
        let t = s.skip(1);
        assert forall|i: int| 0 <= i < t.len() - 1 implies #[trigger] b_after_digit(t, i) by {
            assert(b_after_digit(s, i + 1));
            assert(t[i] == s[i + 1]);
            assert(t[i + 1] == s[i + 2]);
        }
        lemma_drop_b_identity(t, a);
        assert(b_after_digit(s, 0));
        assert(seq![s[0]] + t =~= s);
    }
}

pub proof fn lemma_normalize_tidy(s: Seq<char>)
    requires
        tidy(s),
    ensures
        normalize(s) == s,
{
    assert forall|i: int| 0 <= i < s.len() implies upper_ascii(#[trigger] s[i]) == s[i] by {
        assert(is_digit(s[i]) || is_unit(s[i]));
    }
    assert(upper(s) =~= s);
    lemma_drop_b_identity(s, 'G');
    lemma_drop_b_identity(s, 'M');
    lemma_drop_b_identity(s, 'K');
}

pub proof fn lemma_part_total(n: nat, u: char)
    requires
        is_unit(u),
        n <= usize::MAX,
    ensures
        text_total(part(n, u)) == n * unit_factor(u),
{
    if n > 0 {
        lemma_part_tidy(n, u);
        let p = part(n, u);
        lemma_decimal(n);
        assert forall|i: int| 0 <= i < p.len() - 1 implies !is_unit(#[trigger] p[i]) by {
            assert(p[i] == decimal(n)[i]);
            assert(is_digit(decimal(n)[i]));
        }
        lemma_total_single(p);
        lemma_parse_decimal(n);
    }
}

/// Reading back the text of a byte count gives the count.
pub proof fn lemma_bytesize_roundtrip(v: usize)
    ensures
        parse_bytesize(bytesize_text(v as nat)) == v,
{
    let vn = v as nat;
    let gn = BYTESIZE_G as nat;
    let mn = BYTESIZE_M as nat;
    let kn = BYTESIZE_K as nat;
    let g = vn / gn;
    let r1 = vn % gn;
    let m = r1 / mn;
    let r2 = r1 % mn;
    let k = r2 / kn;
    let b = r2 % kn;
    let pg = part(g, 'G');
    let pm = part(m, 'M');
    let pk = part(k, 'K');
    let pb = part(b, 'B');
    lemma_part_tidy(g, 'G');
    lemma_part_tidy(m, 'M');
    lemma_part_tidy(k, 'K');
    lemma_part_tidy(b, 'B');
    lemma_tidy_concat(pg, pm);
    lemma_tidy_concat(pg + pm, pk);
    lemma_tidy_concat(pg + pm + pk, pb);
    let text = bytesize_text(vn);
    assert(text == pg + pm + pk + pb);
    lemma_normalize_tidy(text);
    lemma_total_concat(pg, pm);
    if (pg + pm).len() > 0 {
        if pm.len() > 0 {
            assert((pg + pm).last() == pm.last());
        } else {
            assert((pg + pm).last() == pg.last());
        }
    }
    lemma_total_concat(pg + pm, pk);
    let pgmk = pg + pm + pk;
    if pgmk.len() > 0 {
        if pk.len() > 0 {
            assert(pgmk.last() == pk.last());
        } else if pm.len() > 0 {
            assert(pgmk.last() == pm.last());
        } else {
            assert(pgmk.last() == pg.last());
        }
    }
    lemma_total_concat(pgmk, pb);
    lemma_part_total(g, 'G');
    lemma_part_total(m, 'M');
    lemma_part_total(k, 'K');
    lemma_part_total(b, 'B');
    assert(vn == g * gn + r1);
    assert(r1 == m * mn + r2);
    assert(r2 == k * kn + b);
    assert(text_total(text) == vn);
    vstd::arithmetic::div_mod::lemma_small_mod(vn, word_range() as nat);
    assert(normalize(text) == text);
}

// ----------------------------------------------------------------------------
// Text conversions with the standard library

/// The characters of a string slice, in order.
fn str_chars(s: &str) -> (v: Vec<char>)
    ensures
        v@ == s@,
{
    broadcast use vstd::string::axiom_spec_iter;

    let mut v: Vec<char> = Vec::new();
    for c in it: s.chars()
        invariant
            it.seq() == s@,
            v@ == it.seq().take(it.index() as int),
    {
        v.push(c);
        proof {
            assert(v@ =~= it.seq().take(it.index() + 1));
        }
    }
    proof {
        assert(v@ =~= s@);
    }
    v
}

/// A string made of the given characters, in order.
///
/// Collects the characters with `FromIterator<char> for String`, which the
/// standard library documents as appending each character in turn.
#[verifier::external_body]
fn string_from_chars(v: &Vec<char>) -> (s: String)
    ensures
        s@ == v@,
{
    v.iter().collect()
}

// ----------------------------------------------------------------------------
// Executable code

fn digit_to_char(d: usize) -> (c: char)
    requires
        d < 10,
    ensures
        c == digit_char(d as int),
{
    if d == 0 {
        '0'
    } else if d == 1 {
        '1'
    } else if d == 2 {
        '2'
    } else if d == 3 {
        '3'
    } else if d == 4 {
        '4'
    } else if d == 5 {
        '5'
    } else if d == 6 {
        '6'
    } else if d == 7 {
        '7'
    } else if d == 8 {
        '8'
    } else {
        '9'
    }
}

/// Appends the decimal numeral of `n`.
fn push_decimal(out: &mut Vec<char>, n: usize)
    ensures
        final(out)@ == old(out)@ + decimal(n as nat),
    decreases n,
{
    if n >= 10 {
        push_decimal(out, n / 10);
    }
    out.push(digit_to_char(n % 10));
    proof {
        if n >= 10 {
            assert(decimal(n as nat) == decimal((n / 10) as nat).push(digit_char((n % 10) as int)));
        }
        assert(final(out)@ =~= old(out)@ + decimal(n as nat));
    }
}

fn push_part(out: &mut Vec<char>, n: usize, unit: char)
    ensures
        final(out)@ == old(out)@ + part(n as nat, unit),
{
    if n > 0 {
        push_decimal(out, n);
        out.push(unit);
        proof {
            assert(final(out)@ =~= old(out)@ + part(n as nat, unit));
        }
    } else {
        proof {
            assert(old(out)@ + part(n as nat, unit) =~= old(out)@);
        }
    }
}

fn upper_all(v: &Vec<char>) -> (r: Vec<char>)
    ensures
        r@ == upper(v@),
{
    let mut r: Vec<char> = Vec::new();
    let n = v.len();
    for i in 0..n
        invariant
            n == v@.len(),
            r@.len() == i,
            forall|j: int| 0 <= j < i ==> #[trigger] r@[j] == upper_ascii(v@[j]),
    {
        let c = v[i];
        let u = if 'a' <= c && c <= 'z' {
            let code = c as u32 - 32;
            proof {
                assert(code == c as int - 32);
            }
            char_from_ascii_code(code)
        } else {
            c
        };
        r.push(u);
    }
    proof {
        assert(r@ =~= upper(v@));
    }
    r
}

/// The character with an ASCII code.
fn char_from_ascii_code(code: u32) -> (c: char)
    requires
        code < 128,
    ensures
        c as int == code,
{
    let b = code as u8;
    b as char
}

fn drop_b(v: &Vec<char>, a: char) -> (r: Vec<char>)
    ensures
        r@ == drop_b_after(v@, a),
{
    let n = v.len();
    let mut r: Vec<char> = Vec::new();
    let mut i: usize = 0;
    proof {
        assert(v@.skip(0) =~= v@);
        assert(r@ + v@ =~= v@);
    }
    while i < n
        invariant
            n == v@.len(),
            i <= n,
            drop_b_after(v@, a) == r@ + drop_b_after(v@.skip(i as int), a),
        decreases n - i,
    {
        let ghost rest = v@.skip(i as int);
        if i + 1 < n && v[i] == a && v[i + 1] == 'B' {
            r.push(a);
            proof {
                assert(rest.skip(2) =~= v@.skip(i + 2));
            }
            i = i + 2;
        } else {
            r.push(v[i]);
            proof {
                assert(rest.skip(1) =~= v@.skip(i + 1));
                if rest.len() < 2 {
                    assert(rest.len() == 1);
                    assert(v@.skip(i + 1) =~= Seq::<char>::empty());
                }
            }
            i = i + 1;
        }
    }
    proof {
        assert(v@.skip(n as int) =~= Seq::<char>::empty());
        assert(r@ + Seq::<char>::empty() =~= r@);
    }
    r
}

/// Parses `v[lo..hi]` as `str::parse::<usize>` does.
fn parse_count(v: &Vec<char>, lo: usize, hi: usize) -> (r: Option<usize>)
    requires
        lo <= hi <= v@.len(),
    ensures
        r matches Some(x) ==> parse_usize(v@.subrange(lo as int, hi as int)) == Some(x as int),
        r is None ==> parse_usize(v@.subrange(lo as int, hi as int)) is None,
{
    let ghost s = v@.subrange(lo as int, hi as int);
    let mut i = lo;
    if i < hi && v[i] == '+' {
        i = i + 1;
    }
    let start = i;
    let ghost d = v@.subrange(start as int, hi as int);
    proof {
        assert(d =~= if s.len() > 0 && s[0] == '+' { s.skip(1) } else { s });
    }
    if start == hi {
        return None;
    }
    let mut acc: usize = 0;
    while i < hi
        invariant
            lo <= start <= i <= hi <= v@.len(),
            d == v@.subrange(start as int, hi as int),
            d == (if s.len() > 0 && s[0] == '+' { s.skip(1) } else { s }),
            s == v@.subrange(lo as int, hi as int),
            all_digits(v@.subrange(start as int, i as int)),
            acc as int == digits_value(v@.subrange(start as int, i as int)),
        decreases hi - i,
    {
        let c = v[i];
        let ghost pre = v@.subrange(start as int, i as int);
        let ghost next = v@.subrange(start as int, i + 1);
        proof {
            assert(next.drop_last() =~= pre);
            assert(next.last() == c);
        }
        if !('0' <= c && c <= '9') {
            proof {
                assert(d[i - start] == c);
            }
            return None;
        }
        let dv = c as u32 - 48;
        proof {
            assert(dv == digit_value(c));
            assert(forall|j: int| 0 <= j < next.len() ==> is_digit(#[trigger] next[j])) by {
                assert forall|j: int| 0 <= j < next.len() implies is_digit(#[trigger] next[j]) by {
                    if j < pre.len() {
                        assert(next[j] == pre[j]);
                    }
                }
            }
        }
        let grown = match acc.checked_mul(10) {
            Some(x) => x.checked_add(dv as usize),
            None => None,
        };
        match grown {
            Some(x) => {
                acc = x;
            },
            None => {
                proof {
                    assert(digits_value(next) > usize::MAX);
                    if all_digits(d) {
                        assert(next =~= d.subrange(0, i + 1 - start));
                        lemma_digits_value_grows(d, i + 1 - start);
                    }
                }
                return None;
            },
        }
        i = i + 1;
    }
    Some(acc)
}

/// The value of the segment `v[lo..hi]`, wrapped to a `usize`.
fn segment_count(v: &Vec<char>, lo: usize, hi: usize) -> (r: usize)
    requires
        lo < hi <= v@.len(),
    ensures
        r as int == segment_value(v@.subrange(lo as int, hi as int)) % word_range(),
{
    let ghost seg = v@.subrange(lo as int, hi as int);
    proof {
        assert(seg.drop_last() =~= v@.subrange(lo as int, hi - 1));
        assert(seg.last() == v@[hi - 1]);
    }
    let u = v[hi - 1];
    let factor: usize = if u == 'B' {
        1
    } else if u == 'K' {
        BYTESIZE_K
    } else if u == 'M' {
        BYTESIZE_M
    } else if u == 'G' {
        BYTESIZE_G
    } else {
        0
    };
    proof {
        assert(unit_factor(u) == factor as int);
    }
    match parse_count(v, lo, hi - 1) {
        Some(x) => {
            let r = x.wrapping_mul(factor);
            proof {
                assert(segment_value(seg) == x as int * factor as int);
                assert(r as int == (x as nat * factor as nat) % (usize::MAX as nat + 1));
                assert(r as int == segment_value(seg) % word_range());
            }
            r
        },
        None => {
            proof {
                assert(segment_value(seg) == 0);
                assert(0int % word_range() == 0);
            }
            0
        },
    }
}

/// The sum of the segment values of `v`, wrapped to a `usize`.
fn total_count(v: &Vec<char>) -> (r: usize)
    ensures
        r as int == text_total(v@) % word_range(),
{
    let n = v.len();
    let mut start: usize = 0;
    let mut total: usize = 0;
    let mut i: usize = 0;
    proof {
        assert(v@.subrange(0, 0) =~= Seq::<char>::empty());
        assert(text_total(v@.subrange(0, 0)) == 0);
    }
    while i < n
        invariant
            n == v@.len(),
            start <= i <= n,
            start == 0 || is_unit(v@[start - 1]),
            forall|j: int| start <= j < i ==> !is_unit(#[trigger] v@[j]),
            total as int == text_total(v@.subrange(0, start as int)) % word_range(),
        decreases n - i,
    {
        let c = v[i];
        if c == 'G' || c == 'M' || c == 'K' || c == 'B' {
            let seg = segment_count(v, start, i + 1);
            let ghost a = v@.subrange(0, start as int);
            let ghost s = v@.subrange(start as int, i + 1);
            proof {
                assert(v@.subrange(0, i + 1) =~= a + s);
                if a.len() > 0 {
                    assert(a.last() == v@[start - 1]);
                }
                lemma_total_concat(a, s);
                assert forall|j: int| 0 <= j < s.len() - 1 implies !is_unit(#[trigger] s[j]) by {
                    assert(s[j] == v@[start + j]);
                }
                lemma_total_single(s);
                let w = word_range();
                vstd::arithmetic::div_mod::lemma_add_mod_noop(text_total(a), segment_value(s), w);
                vstd::arithmetic::div_mod::lemma_small_mod(total as nat, w as nat);
                vstd::arithmetic::div_mod::lemma_small_mod(seg as nat, w as nat);
            }
            total = total.wrapping_add(seg);
            proof {
                let w = word_range();
                assert(total as int == (text_total(a) % w + segment_value(s) % w) % w);
            }
            start = i + 1;
        }
        i = i + 1;
    }
    if start < n {
        let seg = segment_count(v, start, n);
        let ghost a = v@.subrange(0, start as int);
        let ghost s = v@.subrange(start as int, n as int);
        proof {
            assert(v@ =~= a + s);
            if a.len() > 0 {
                assert(a.last() == v@[start - 1]);
            }
            lemma_total_concat(a, s);
            assert forall|j: int| 0 <= j < s.len() - 1 implies !is_unit(#[trigger] s[j]) by {
                assert(s[j] == v@[start + j]);
            }
            lemma_total_single(s);
            let w = word_range();
            vstd::arithmetic::div_mod::lemma_add_mod_noop(text_total(a), segment_value(s), w);
            vstd::arithmetic::div_mod::lemma_small_mod(total as nat, w as nat);
            vstd::arithmetic::div_mod::lemma_small_mod(seg as nat, w as nat);
        }
        total = total.wrapping_add(seg);
        proof {
            let w = word_range();
            assert(total as int == (text_total(a) % w + segment_value(s) % w) % w);
        }
    } else {
        proof {
            assert(v@.subrange(0, start as int) =~= v@);
        }
    }
    total
}

/// The byte count that `text` denotes: upper-cased, with `GB`, `MB` and `KB`
/// read as `G`, `M` and `K`, split after each of `G`, `M`, `K`, `B`; each
/// piece counts its number times its unit, a piece that does not parse counts
/// zero, and the pieces add up, wrapping around past `usize::MAX`.
pub fn to_bytesize(text: &str) -> (r: usize)
    ensures
        r as int == parse_bytesize(text@),
{
    let chars = str_chars(text);
    let up = upper_all(&chars);
    let g = drop_b(&up, 'G');
    let m = drop_b(&g, 'M');
    let k = drop_b(&m, 'K');
    total_count(&k)
}

/// A number of bytes.
pub struct Bytesize(usize);

impl View for Bytesize {
    type V = usize;

    closed spec fn view(&self) -> usize {
        self.0
    }
}

impl Bytesize {
    /// The count, truncated to 32 bits.
    pub fn as_u32(&self) -> (r: u32)
        ensures
            r == self@ as u32,
    {
        self.0 as u32
    }

    pub fn as_u64(&self) -> (r: u64)
        ensures
            r == self@,
    {
        self.0 as u64
    }

    pub fn as_usize(&self) -> (r: usize)
        ensures
            r == self@,
    {
        self.0
    }

    /// The count as text, for example `1G512M` or `1K1B`; zero gives the empty text.
    pub fn string(&self) -> (s: String)
        ensures
            s@ == bytesize_text(self@ as nat),
    {
        let mut v = self.0;
        let mut out: Vec<char> = Vec::new();
        let g = v / BYTESIZE_G;
        if g > 0 {
            v = v % BYTESIZE_G;
        }
        push_part(&mut out, g, 'G');
        let m = v / BYTESIZE_M;
        if m > 0 {
            v = v % BYTESIZE_M;
        }
        push_part(&mut out, m, 'M');
        let k = v / BYTESIZE_K;
        if k > 0 {
            v = v % BYTESIZE_K;
        }
        push_part(&mut out, k, 'K');
        push_part(&mut out, v, 'B');
        proof {
            assert(out@ =~= bytesize_text(self@ as nat));
        }
        string_from_chars(&out)
    }
}

impl Clone for Bytesize {
    fn clone(&self) -> (r: Self)
        ensures
            r@ == self@,
    {
        Bytesize(self.0)
    }
}

impl From<usize> for Bytesize {
    fn from(v: usize) -> (r: Self)
        ensures
            r@ == v,
    {
        Bytesize(v)
    }
}

impl vstd::std_specs::convert::FromSpecImpl<usize> for Bytesize {
    open spec fn obeys_from_spec() -> bool {
        true
    }

    closed spec fn from_spec(v: usize) -> Self {
        Bytesize(v)
    }
}

impl<'a> From<&'a str> for Bytesize {
    fn from(v: &'a str) -> (r: Self)
        ensures
            r@ == parse_bytesize(v@) as usize,
    {
        Bytesize(to_bytesize(v))
    }
}

impl<'a> vstd::std_specs::convert::FromSpecImpl<&'a str> for Bytesize {
    open spec fn obeys_from_spec() -> bool {
        true
    }

    closed spec fn from_spec(v: &'a str) -> Self {
        Bytesize(parse_bytesize(v@) as usize)
    }
}

impl core::ops::Deref for Bytesize {
    type Target = usize;

    fn deref(&self) -> (r: &usize)
        ensures
            *r == self@,
    {
        &self.0
    }
}

} // verus!
