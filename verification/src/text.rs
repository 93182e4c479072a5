//! Character-level helpers: Unicode whitespace, trimming, and the decimal and
//! hexadecimal renderings used in captions and fingerprints.
use vstd::prelude::*;
use vstd::std_specs::iter::IteratorSpec;

verus! {

broadcast use vstd::string::group_string_axioms;

/// Unicode `White_Space`, the property that `char::is_whitespace` and
/// `str::trim` go by.
pub open spec fn is_unicode_whitespace(c: char) -> bool {
    let u = c as u32;
    ||| 0x09 <= u <= 0x0d
    ||| u == 0x20
    ||| u == 0x85
    ||| u == 0xa0
    ||| u == 0x1680
    ||| 0x2000 <= u <= 0x200a
    ||| u == 0x2028
    ||| u == 0x2029
    ||| u == 0x202f
    ||| u == 0x205f
    ||| u == 0x3000
}

/// Every character of `s` is whitespace (the empty text included).
pub open spec fn is_blank(s: Seq<char>) -> bool {
    forall|i: int| 0 <= i < s.len() ==> is_unicode_whitespace(#[trigger] s[i])
}

/// `s` without its leading whitespace.
pub open spec fn trim_start_ws(s: Seq<char>) -> Seq<char>
    decreases s.len(),
{
    if s.len() > 0 && is_unicode_whitespace(s[0]) {
        trim_start_ws(s.drop_first())
    } else {
        s
    }
}

/// `s` without its trailing whitespace.
pub open spec fn trim_end_ws(s: Seq<char>) -> Seq<char>
    decreases s.len(),
{
    if s.len() > 0 && is_unicode_whitespace(s.last()) {
        trim_end_ws(s.drop_last())
    } else {
        s
    }
}

/// `s` without whitespace at either end, as `str::trim` gives it.
pub open spec fn trim_ws(s: Seq<char>) -> Seq<char> {
    trim_end_ws(trim_start_ws(s))
}

/// The ASCII digit for `d < 10`.
pub open spec fn digit_char(d: nat) -> char {
    ((d + 48) as u32) as char
}

/// The lower-case hexadecimal digit for `d < 16`.
pub open spec fn hex_digit_char(d: nat) -> char {
    if d < 10 {
        ((d + 48) as u32) as char
    } else {
        ((d + 87) as u32) as char
    }
}

/// The decimal rendering of `n`, without leading zeros.
pub open spec fn decimal(n: nat) -> Seq<char>
    decreases n,
{
    if n < 10 {
        seq![digit_char(n)]
    } else {
        decimal(n / 10).push(digit_char(n % 10))
    }
}

/// The `width` lowest hexadecimal digits of `n`, most significant first,
/// padded with zeros (`{:0width$x}` for a value below `16^width`).
pub open spec fn hex_fixed(n: nat, width: nat) -> Seq<char>
    decreases width,
{
    if width == 0 {
        Seq::empty()
    } else {
        hex_fixed(n / 16, (width - 1) as nat).push(hex_digit_char(n % 16))
    }
}

/// Whether `c` is whitespace in the sense of Unicode `White_Space`.
pub fn is_whitespace(c: char) -> (r: bool)
    ensures
        r == is_unicode_whitespace(c),
{
    let u = c as u32;
    (0x09 <= u && u <= 0x0d) || u == 0x20 || u == 0x85 || u == 0xa0 || u == 0x1680 || (0x2000 <= u
        && u <= 0x200a) || u == 0x2028 || u == 0x2029 || u == 0x202f || u == 0x205f || u == 0x3000
}

/// Appends one character with `String::push`.
#[verifier::external_body]
pub(crate) fn push_char(s: &mut String, c: char)
    ensures
        final(s)@ == old(s)@.push(c),
{
    s.push(c)
}

/// The characters of `s`, in order.
pub fn chars_of(s: &str) -> (v: Vec<char>)
    ensures
        v@ == s@,
{
    let mut v: Vec<char> = Vec::new();
    for c in it: s.chars()
        invariant
            it.seq() == s@,
            v@ == it.seq().take(it.index() as int),
    {
        v.push(c);
        assert(v@ =~= it.seq().take(it.index() + 1));
    }
    assert(v@ =~= s@);
    v
}

/// Start and end of the part of `v` that `trim_ws` keeps.
pub fn trim_bounds(v: &Vec<char>) -> (r: (usize, usize))
    ensures
        r.0 <= r.1 <= v.len(),
        v@.subrange(r.0 as int, r.1 as int) == trim_ws(v@),
{
    let n = v.len();
    let mut start: usize = 0;
    assert(v@.subrange(0, n as int) =~= v@);
    while start < n && is_whitespace(v[start])
        invariant
            n == v.len(),
            start <= n,
            trim_start_ws(v@) == trim_start_ws(v@.subrange(start as int, n as int)),
        decreases n - start,
    {
        let ghost sub = v@.subrange(start as int, n as int);
        assert(sub.drop_first() =~= v@.subrange(start + 1, n as int));
        start = start + 1;
    }
    let ghost ts = v@.subrange(start as int, n as int);
    assert(trim_start_ws(ts) == ts);
    let mut end: usize = n;
    while end > start && is_whitespace(v[end - 1])
        invariant
            n == v.len(),
            start <= end <= n,
            trim_ws(v@) == trim_end_ws(v@.subrange(start as int, end as int)),
        decreases end - start,
    {
        let ghost sub = v@.subrange(start as int, end as int);
        assert(sub.drop_last() =~= v@.subrange(start as int, end - 1));
        end = end - 1;
    }
    (start, end)
}

/// Whether every character of `s` is whitespace, as `s.trim().is_empty()`.
pub fn is_blank_str(s: &str) -> (r: bool)
    ensures
        r == is_blank(s@),
{
    let v = chars_of(s);
    let n = v.len();
    let mut i: usize = 0;
    while i < n
        invariant
            n == v.len(),
            v@ == s@,
            i <= n,
            forall|j: int| 0 <= j < i ==> is_unicode_whitespace(#[trigger] v@[j]),
        decreases n - i,
    {
        if !is_whitespace(v[i]) {
            return false;
        }
        i = i + 1;
    }
    true
}

/// The ASCII digit for `d`.
pub fn digit(d: u32) -> (c: char)
    requires
        d < 10,
    ensures
        c == digit_char(d as nat),
{
    let b: u8 = (48 + d) as u8;
    b as char
}

/// The lower-case hexadecimal digit for `d`.
pub fn hex_digit(d: u64) -> (c: char)
    requires
        d < 16,
    ensures
        c == hex_digit_char(d as nat),
{
    if d < 10 {
        let b: u8 = (48 + d) as u8;
        b as char
    } else {
        let b: u8 = (87 + d) as u8;
        b as char
    }
}

/// Appends the decimal rendering of `n`.
pub fn push_decimal(s: &mut String, n: u32)
    ensures
        final(s)@ == old(s)@ + decimal(n as nat),
    decreases n,
{
    if n >= 10 {
        push_decimal(s, n / 10);
    }
    push_char(s, digit(n % 10));
    assert(s@ =~= old(s)@ + decimal(n as nat));
}

/// Appends the `width` lowest hexadecimal digits of `n`, zero-padded.
pub fn push_hex_fixed(s: &mut String, n: u64, width: u32)
    ensures
        final(s)@ == old(s)@ + hex_fixed(n as nat, width as nat),
    decreases width,
{
    if width > 0 {
        push_hex_fixed(s, n / 16, width - 1);
        push_char(s, hex_digit(n % 16));
    }
    assert(s@ =~= old(s)@ + hex_fixed(n as nat, width as nat));
}

/// What `trim_ws` keeps is a contiguous part of its argument.
pub proof fn lemma_trim_is_subrange(s: Seq<char>)
    ensures
        exists|a: int, b: int| 0 <= a <= b <= s.len() && trim_ws(s) == s.subrange(a, b),
    decreases s.len(),
{
    lemma_trim_start_is_suffix(s);
    let ts = trim_start_ws(s);
    let k = choose|k: int| 0 <= k <= s.len() && ts == s.subrange(k, s.len() as int);
    lemma_trim_end_is_prefix(ts);
    let j = choose|j: int| 0 <= j <= ts.len() && trim_ws(s) == ts.subrange(0, j);
    assert(trim_ws(s) =~= s.subrange(k, k + j));
}

proof fn lemma_trim_start_is_suffix(s: Seq<char>)
    ensures
        exists|k: int| 0 <= k <= s.len() && trim_start_ws(s) == s.subrange(k, s.len() as int),
    decreases s.len(),
{
    if s.len() > 0 && is_unicode_whitespace(s[0]) {
        lemma_trim_start_is_suffix(s.drop_first());
        let k = choose|k: int|
            0 <= k <= s.drop_first().len() && trim_start_ws(s.drop_first()) == s.drop_first().subrange(
                k,
                s.drop_first().len() as int,
            );
        assert(trim_start_ws(s) =~= s.subrange(k + 1, s.len() as int));
    } else {
        assert(trim_start_ws(s) =~= s.subrange(0, s.len() as int));
    }
}

proof fn lemma_trim_end_is_prefix(s: Seq<char>)
    ensures
        exists|j: int| 0 <= j <= s.len() && trim_end_ws(s) == s.subrange(0, j),
    decreases s.len(),
{
    if s.len() > 0 && is_unicode_whitespace(s.last()) {
        lemma_trim_end_is_prefix(s.drop_last());
        let j = choose|j: int|
            0 <= j <= s.drop_last().len() && trim_end_ws(s.drop_last())
                == s.drop_last().subrange(0, j);
        assert(trim_end_ws(s) =~= s.subrange(0, j));
    } else {
        assert(trim_end_ws(s) =~= s.subrange(0, s.len() as int));
    }
}

proof fn lemma_trim_start_empty_iff_blank(s: Seq<char>)
    ensures
        trim_start_ws(s).len() == 0 <==> is_blank(s),
        trim_start_ws(s).len() > 0 ==> !is_unicode_whitespace(trim_start_ws(s)[0]),
    decreases s.len(),
{
    if s.len() > 0 && is_unicode_whitespace(s[0]) {
        lemma_trim_start_empty_iff_blank(s.drop_first());
        if is_blank(s.drop_first()) {
            assert forall|i: int| 0 <= i < s.len() implies is_unicode_whitespace(#[trigger] s[i]) by {
                if i > 0 {
                    assert(s[i] == s.drop_first()[i - 1]);
                }
            }
        }
        if is_blank(s) {
            assert forall|i: int| 0 <= i < s.drop_first().len() implies is_unicode_whitespace(
                #[trigger] s.drop_first()[i],
            ) by {
                assert(s.drop_first()[i] == s[i + 1]);
            }
        }
    } else if s.len() > 0 {
        assert(!is_unicode_whitespace(s[0]));
    }
}

proof fn lemma_trim_end_keeps_non_blank_head(s: Seq<char>)
    requires
        s.len() > 0,
        !is_unicode_whitespace(s[0]),
    ensures
        trim_end_ws(s).len() > 0,
    decreases s.len(),
{
    if is_unicode_whitespace(s.last()) {
        assert(s.len() > 1);
        assert(s.drop_last()[0] == s[0]);
        lemma_trim_end_keeps_non_blank_head(s.drop_last());
    }
}

/// A text trims to nothing exactly when all of it is whitespace, so testing
/// `is_blank` is testing `trim().is_empty()`.
pub proof fn lemma_blank_iff_trims_to_empty(s: Seq<char>)
    ensures
        is_blank(s) <==> trim_ws(s).len() == 0,
{
    lemma_trim_start_empty_iff_blank(s);
    let t = trim_start_ws(s);
    if t.len() > 0 {
        lemma_trim_end_keeps_non_blank_head(t);
    }
}

/// `base` raised to the `k`-th power.
pub open spec fn power(base: nat, k: nat) -> nat
    decreases k,
{
    if k == 0 {
        1
    } else {
        base * power(base, (k - 1) as nat)
    }
}

pub(crate) proof fn lemma_power_positive(base: nat, k: nat)
    requires
        base > 0,
    ensures
        power(base, k) > 0,
    decreases k,
{
    if k > 0 {
        lemma_power_positive(base, (k - 1) as nat);
        assert(base * power(base, (k - 1) as nat) > 0) by (nonlinear_arith)
            requires
                base > 0,
                power(base, (k - 1) as nat) > 0,
        ;
    }
}

/// A rendering with `width` hex digits keeps every one of them: two numbers get
/// the same rendering exactly when they agree modulo `16^width`.
pub proof fn lemma_hex_fixed_keeps_every_digit(a: nat, b: nat, width: nat)
    ensures
        hex_fixed(a, width).len() == width,
        hex_fixed(a, width) == hex_fixed(b, width) <==> a % power(16, width) == b % power(16, width),
    decreases width,
{
    if width > 0 {
        let k = (width - 1) as nat;
        lemma_hex_fixed_keeps_every_digit(a / 16, b / 16, k);
        lemma_hex_fixed_keeps_every_digit(a / 16, a / 16, k);
        lemma_power_positive(16, k);
        vstd::arithmetic::div_mod::lemma_breakdown(a as int, 16, power(16, k) as int);
        vstd::arithmetic::div_mod::lemma_breakdown(b as int, 16, power(16, k) as int);
        let ha = hex_fixed(a, width);
        let hb = hex_fixed(b, width);
        assert(ha.drop_last() =~= hex_fixed(a / 16, k));
        assert(hb.drop_last() =~= hex_fixed(b / 16, k));
        let da = a % 16;
        let db = b % 16;
        assert(hex_digit_char(da) as u32 == if da < 10 { da + 48 } else { da + 87 });
        assert(hex_digit_char(db) as u32 == if db < 10 { db + 48 } else { db + 87 });
        if ha == hb {
            assert(ha.last() == hb.last());
            assert(da == db);
        }
        if a % power(16, width) == b % power(16, width) {
            let x = (a / 16) % power(16, k);
            let y = (b / 16) % power(16, k);
            assert(16 * x + da == 16 * y + db);
            assert(da == db && x == y);
            assert(ha =~= hb);
        }
    }
}

proof fn lemma_trim_start_parts(s: Seq<char>)
    ensures
        exists|k: int|
            0 <= k <= s.len() && trim_start_ws(s) == s.subrange(k, s.len() as int) && (forall|j: int|
                0 <= j < k ==> is_unicode_whitespace(#[trigger] s[j])) && (k < s.len()
                ==> !is_unicode_whitespace(s[k])),
    decreases s.len(),
{
    if s.len() > 0 && is_unicode_whitespace(s[0]) {
        let d = s.drop_first();
        lemma_trim_start_parts(d);
        let k = choose|k: int|
            0 <= k <= d.len() && trim_start_ws(d) == d.subrange(k, d.len() as int) && (forall|j: int|
                0 <= j < k ==> is_unicode_whitespace(#[trigger] d[j])) && (k < d.len()
                ==> !is_unicode_whitespace(d[k]));
        assert(trim_start_ws(s) =~= s.subrange(k + 1, s.len() as int));
        assert forall|j: int| 0 <= j < k + 1 implies is_unicode_whitespace(#[trigger] s[j]) by {
            if j > 0 {
                assert(s[j] == d[j - 1]);
            }
        }
        if k + 1 < s.len() {
            assert(s[k + 1] == d[k]);
        }
    } else {
        assert(trim_start_ws(s) =~= s.subrange(0, s.len() as int));
    }
}

proof fn lemma_trim_end_parts(s: Seq<char>)
    ensures
        exists|j: int|
            0 <= j <= s.len() && trim_end_ws(s) == s.subrange(0, j) && (forall|i: int|
                j <= i < s.len() ==> is_unicode_whitespace(#[trigger] s[i])) && (j > 0
                ==> !is_unicode_whitespace(s[j - 1])),
    decreases s.len(),
{
    if s.len() > 0 && is_unicode_whitespace(s.last()) {
        let d = s.drop_last();
        lemma_trim_end_parts(d);
        let j = choose|j: int|
            0 <= j <= d.len() && trim_end_ws(d) == d.subrange(0, j) && (forall|i: int|
                j <= i < d.len() ==> is_unicode_whitespace(#[trigger] d[i])) && (j > 0
                ==> !is_unicode_whitespace(d[j - 1]));
        assert(trim_end_ws(s) =~= s.subrange(0, j));
        assert forall|i: int| j <= i < s.len() implies is_unicode_whitespace(#[trigger] s[i]) by {
            if i < s.len() - 1 {
                assert(s[i] == d[i]);
            }
        }
        if j > 0 {
            assert(s[j - 1] == d[j - 1]);
        }
    } else {
        assert(trim_end_ws(s) =~= s.subrange(0, s.len() as int));
    }
}

/// Trimming drops whitespace at the ends and nothing else: what it keeps is a
/// contiguous part of the text, everything before and after that part is
/// whitespace, and the part, when not empty, starts and ends with a character
/// that is not.
pub proof fn lemma_trim_drops_only_outer_whitespace(s: Seq<char>)
    ensures
        exists|a: int, b: int|
            0 <= a <= b <= s.len() && trim_ws(s) == s.subrange(a, b) && (forall|j: int|
                0 <= j < a ==> is_unicode_whitespace(#[trigger] s[j])) && (forall|j: int|
                b <= j < s.len() ==> is_unicode_whitespace(#[trigger] s[j])) && (a < b ==> (
            !is_unicode_whitespace(s[a]) && !is_unicode_whitespace(s[b - 1]))),
{
    lemma_trim_start_parts(s);
    let ts = trim_start_ws(s);
    let k = choose|k: int|
        0 <= k <= s.len() && ts == s.subrange(k, s.len() as int) && (forall|j: int|
            0 <= j < k ==> is_unicode_whitespace(#[trigger] s[j])) && (k < s.len()
            ==> !is_unicode_whitespace(s[k]));
    lemma_trim_end_parts(ts);
    let j = choose|j: int|
        0 <= j <= ts.len() && trim_end_ws(ts) == ts.subrange(0, j) && (forall|i: int|
            j <= i < ts.len() ==> is_unicode_whitespace(#[trigger] ts[i])) && (j > 0
            ==> !is_unicode_whitespace(ts[j - 1]));
    assert(trim_ws(s) =~= s.subrange(k, k + j));
    assert forall|i: int| k + j <= i < s.len() implies is_unicode_whitespace(#[trigger] s[i]) by {
        assert(s[i] == ts[i - k]);
    }
    if j > 0 {
        assert(s[k] == ts[0]);
        assert(s[k + j - 1] == ts[j - 1]);
    }
}

} // verus!
