//! Character-level string helpers with exact specifications. Strings are
//! modelled by their `Seq<char>` views; every helper here states its result
//! over those views.

use vstd::prelude::*;

verus! {

// ---------------------------------------------------------------------------
// Specifications
// ---------------------------------------------------------------------------

pub open spec fn is_ascii_upper(c: char) -> bool {
    'A' <= c && c <= 'Z'
}

/// ASCII lower-casing of one character; every other character is unchanged.
pub open spec fn ascii_lower_char(c: char) -> char {
    if is_ascii_upper(c) {
        ((c as u32) + 32) as char
    } else {
        c
    }
}

/// `str::eq_ignore_ascii_case`: same length and equal after ASCII lower-casing.
pub open spec fn eq_ignore_ascii_case_spec(a: Seq<char>, b: Seq<char>) -> bool {
    &&& a.len() == b.len()
    &&& forall|i: int| 0 <= i < a.len() ==> ascii_lower_char(#[trigger] a[i]) == ascii_lower_char(b[i])
}

pub open spec fn starts_with_spec(s: Seq<char>, p: Seq<char>) -> bool {
    p.len() <= s.len() && s.subrange(0, p.len() as int) == p
}

pub open spec fn occurs_at(s: Seq<char>, p: Seq<char>, i: int) -> bool {
    0 <= i && i + p.len() <= s.len() && s.subrange(i, i + p.len()) == p
}

/// `str::contains` with a string pattern.
pub open spec fn contains_spec(s: Seq<char>, p: Seq<char>) -> bool {
    exists|i: int| occurs_at(s, p, i)
}

/// The Unicode `White_Space` property, as used by `char::is_whitespace`.
pub open spec fn is_white(c: char) -> bool {
    ||| ('\u{9}' <= c && c <= '\u{d}')
    ||| c == ' '
    ||| c == '\u{85}'
    ||| c == '\u{a0}'
    ||| c == '\u{1680}'
    ||| ('\u{2000}' <= c && c <= '\u{200a}')
    ||| c == '\u{2028}'
    ||| c == '\u{2029}'
    ||| c == '\u{202f}'
    ||| c == '\u{205f}'
    ||| c == '\u{3000}'
}

pub open spec fn trim_start_spec(s: Seq<char>) -> Seq<char>
    decreases s.len(),
{
    if s.len() > 0 && is_white(s[0]) {
        trim_start_spec(s.drop_first())
    } else {
        s
    }
}

pub open spec fn trim_end_spec(s: Seq<char>) -> Seq<char>
    decreases s.len(),
{
    if s.len() > 0 && is_white(s.last()) {
        trim_end_spec(s.drop_last())
    } else {
        s
    }
}

/// `str::trim`: leading and trailing white space removed.
pub open spec fn trim_spec(s: Seq<char>) -> Seq<char> {
    trim_end_spec(trim_start_spec(s))
}

/// `str::trim_end_matches(c)` for a single character.
pub open spec fn trim_end_char_spec(s: Seq<char>, c: char) -> Seq<char>
    decreases s.len(),
{
    if s.len() > 0 && s.last() == c {
        trim_end_char_spec(s.drop_last(), c)
    } else {
        s
    }
}

/// `str::split(sep)` for a single-character separator (an empty string
/// splits into one empty piece).
pub open spec fn split_spec(s: Seq<char>, sep: char) -> Seq<Seq<char>>
    decreases s.len(),
{
    if s.len() == 0 {
        seq![Seq::<char>::empty()]
    } else if s.last() == sep {
        split_spec(s.drop_last(), sep).push(Seq::<char>::empty())
    } else {
        let r = split_spec(s.drop_last(), sep);
        r.update(r.len() - 1, r.last().push(s.last()))
    }
}

/// `[..].join(sep)`.
pub open spec fn join_spec(parts: Seq<Seq<char>>, sep: Seq<char>) -> Seq<char>
    decreases parts.len(),
{
    if parts.len() == 0 {
        Seq::empty()
    } else if parts.len() == 1 {
        parts[0]
    } else {
        join_spec(parts.drop_last(), sep) + sep + parts.last()
    }
}

/// `str::replace(pat, rep)` for a non-empty pattern: non-overlapping
/// occurrences, scanned left to right.
pub open spec fn replace_spec(s: Seq<char>, pat: Seq<char>, rep: Seq<char>) -> Seq<char>
    decreases s.len(),
{
    if s.len() == 0 || pat.len() == 0 {
        s
    } else if starts_with_spec(s, pat) {
        rep + replace_spec(s.subrange(pat.len() as int, s.len() as int), pat, rep)
    } else {
        seq![s[0]] + replace_spec(s.drop_first(), pat, rep)
    }
}

pub open spec fn is_digit(c: char) -> bool {
    '0' <= c && c <= '9'
}

pub open spec fn digit_value(c: char) -> int {
    (c as int) - ('0' as int)
}

pub open spec fn all_digits(s: Seq<char>) -> bool {
    forall|i: int| 0 <= i < s.len() ==> is_digit(#[trigger] s[i])
}

/// The value of a run of decimal digits.
pub open spec fn digits_value(s: Seq<char>) -> int
    decreases s.len(),
{
    if s.len() == 0 {
        0
    } else {
        digits_value(s.drop_last()) * 10 + digit_value(s.last())
    }
}

/// `i64::from_str`: an optional `+` or `-`, then at least one decimal digit,
/// and a value in range.
pub open spec fn parse_i64_spec(s: Seq<char>) -> Option<i64> {
    if s.len() == 0 {
        None
    } else {
        let neg = s[0] == '-';
        let body = if s[0] == '-' || s[0] == '+' { s.drop_first() } else { s };
        if body.len() == 0 || !all_digits(body) {
            None
        } else {
            let v = if neg { -digits_value(body) } else { digits_value(body) };
            if i64::MIN <= v && v <= i64::MAX {
                Some(v as i64)
            } else {
                None
            }
        }
    }
}

/// `u64::from_str`: an optional `+`, then at least one decimal digit, and a
/// value in range.
pub open spec fn parse_u64_spec(s: Seq<char>) -> Option<u64> {
    if s.len() == 0 {
        None
    } else {
        let body = if s[0] == '+' { s.drop_first() } else { s };
        if body.len() == 0 || !all_digits(body) {
            None
        } else {
            let v = digits_value(body);
            if v <= u64::MAX {
                Some(v as u64)
            } else {
                None
            }
        }
    }
}

pub open spec fn digit_char(d: int) -> char {
    ((d + 48) as u32) as char
}

/// Decimal digits of a natural number, without leading zeros ("0" for 0).
pub open spec fn nat_digits(n: nat) -> Seq<char>
    decreases n,
{
    if n < 10 {
        seq![digit_char(n as int)]
    } else {
        nat_digits(n / 10) + seq![digit_char((n % 10) as int)]
    }
}

/// `i64`'s `Display`: a `-` for negative values, then the digits.
pub open spec fn decimal_spec(n: int) -> Seq<char> {
    if n < 0 {
        seq!['-'] + nat_digits((-n) as nat)
    } else {
        nat_digits(n as nat)
    }
}

/// The view of an optional string.
pub open spec fn opt_view(o: Option<String>) -> Option<Seq<char>> {
    match o {
        Some(s) => Some(s@),
        None => None,
    }
}

// ---------------------------------------------------------------------------
// Conversions between strings and character vectors
// ---------------------------------------------------------------------------

/// The characters of a string slice, in order.
pub fn chars_of(s: &str) -> (out: Vec<char>)
    ensures
        out@ == s@,
{
    let mut out: Vec<char> = Vec::new();
    for c in it: s.chars()
        invariant
            out@ == it.seq().take(it.index() as int),
            it.seq() == s@,
    {
        out.push(c);
    }
    out
}

/// Appends one character (`String::push`).
#[verifier::external_body]
pub(crate) fn push_char(s: &mut String, c: char)
    ensures
        final(s)@ == old(s)@.push(c),
{
    s.push(c);
}

/// Builds a string from characters.
pub fn string_from(v: &Vec<char>) -> (out: String)
    ensures
        out@ == v@,
{
    let mut out = String::new();
    let mut i: usize = 0;
    while i < v.len()
        invariant
            i <= v.len(),
            out@ == v@.take(i as int),
        decreases v.len() - i,
    {
        push_char(&mut out, v[i]);
        assert(v@.take(i + 1) =~= v@.take(i as int).push(v@[i as int]));
        i = i + 1;
    }
    assert(v@.take(v.len() as int) =~= v@);
    out
}

/// A fresh owned copy of a string slice.
pub fn owned(s: &str) -> (out: String)
    ensures
        out@ == s@,
{
    s.to_owned()
}

/// `a + b`.
pub fn concat(a: &str, b: &str) -> (out: String)
    ensures
        out@ == a@ + b@,
{
    let mut out = a.to_owned();
    out.append(b);
    out
}

// ---------------------------------------------------------------------------
// Comparisons and searches
// ---------------------------------------------------------------------------

pub fn seq_eq(x: &Vec<char>, y: &Vec<char>) -> (r: bool)
    ensures
        r == (x@ == y@),
{
    if x.len() != y.len() {
        return false;
    }
    let mut i: usize = 0;
    while i < x.len()
        invariant
            x.len() == y.len(),
            i <= x.len(),
            forall|j: int| 0 <= j < i ==> x@[j] == y@[j],
        decreases x.len() - i,
    {
        if x[i] != y[i] {
            return false;
        }
        i = i + 1;
    }
    assert(x@ =~= y@);
    true
}

/// Equality of two string slices by their characters.
pub fn str_eq(a: &str, b: &str) -> (r: bool)
    ensures
        r == (a@ == b@),
{
    let x = chars_of(a);
    let y = chars_of(b);
    seq_eq(&x, &y)
}

pub fn lower_ascii_char(c: char) -> (r: char)
    ensures
        r == ascii_lower_char(c),
{
    if 'A' <= c && c <= 'Z' {
        let u: u32 = c as u32;
        assert(65 <= u <= 90);
        ((u + 32) as u8) as char
    } else {
        c
    }
}

/// `str::eq_ignore_ascii_case`.
pub fn eq_ignore_ascii_case(a: &str, b: &str) -> (r: bool)
    ensures
        r == eq_ignore_ascii_case_spec(a@, b@),
{
    let x = chars_of(a);
    let y = chars_of(b);
    if x.len() != y.len() {
        return false;
    }
    let mut i: usize = 0;
    while i < x.len()
        invariant
            x@ == a@,
            y@ == b@,
            x.len() == y.len(),
            i <= x.len(),
            forall|j: int| 0 <= j < i ==> ascii_lower_char(x@[j]) == ascii_lower_char(y@[j]),
        decreases x.len() - i,
    {
        if lower_ascii_char(x[i]) != lower_ascii_char(y[i]) {
            return false;
        }
        i = i + 1;
    }
    true
}

/// Whether `p` occurs in `s` at position `i`.
pub fn occurs_at_exec(s: &Vec<char>, p: &Vec<char>, i: usize) -> (r: bool)
    ensures
        r == occurs_at(s@, p@, i as int),
{
    if i > s.len() || p.len() > s.len() - i {
        return false;
    }
    let mut j: usize = 0;
    while j < p.len()
        invariant
            i + p.len() <= s.len(),
            j <= p.len(),
            forall|k: int| 0 <= k < j ==> s@[i + k] == p@[k],
        decreases p.len() - j,
    {
        if s[i + j] != p[j] {
            assert(s@.subrange(i as int, i + p.len())[j as int] != p@[j as int]);
            return false;
        }
        j = j + 1;
    }
    assert(s@.subrange(i as int, i + p.len()) =~= p@);
    true
}

/// `str::starts_with` with a string pattern.
pub fn starts_with(s: &str, p: &str) -> (r: bool)
    ensures
        r == starts_with_spec(s@, p@),
{
    let x = chars_of(s);
    let y = chars_of(p);
    occurs_at_exec(&x, &y, 0)
}

/// `str::contains` with a string pattern.
pub fn contains(s: &str, p: &str) -> (r: bool)
    ensures
        r == contains_spec(s@, p@),
{
    let x = chars_of(s);
    let y = chars_of(p);
    if y.len() > x.len() {
        assert forall|i: int| !occurs_at(s@, p@, i) by {}
        return false;
    }
    let n = x.len() - y.len();
    let mut i: usize = 0;
    loop
        invariant
            x@ == s@,
            y@ == p@,
            y.len() <= x.len(),
            n == x.len() - y.len(),
            i <= n,
            forall|k: int| 0 <= k < i ==> !occurs_at(s@, p@, k),
        ensures
            forall|k: int| 0 <= k <= n ==> !occurs_at(s@, p@, k),
        decreases n - i,
    {
        if occurs_at_exec(&x, &y, i) {
            return true;
        }
        if i == n {
            break;
        }
        i = i + 1;
    }
    assert forall|k: int| !occurs_at(s@, p@, k) by {
        if 0 <= k && k <= n {
        }
    }
    false
}

pub fn is_white_exec(c: char) -> (r: bool)
    ensures
        r == is_white(c),
{
    ('\u{9}' <= c && c <= '\u{d}') || c == ' ' || c == '\u{85}' || c == '\u{a0}'
        || c == '\u{1680}' || ('\u{2000}' <= c && c <= '\u{200a}') || c == '\u{2028}'
        || c == '\u{2029}' || c == '\u{202f}' || c == '\u{205f}' || c == '\u{3000}'
}

proof fn lemma_trim_start(s: Seq<char>, a: int)
    requires
        0 <= a <= s.len(),
        forall|j: int| 0 <= j < a ==> is_white(#[trigger] s[j]),
        a == s.len() || !is_white(s[a]),
    ensures
        trim_start_spec(s) == s.subrange(a, s.len() as int),
    decreases a,
{
    if a == 0 {
        assert(s.subrange(0, s.len() as int) =~= s);
    } else {
        assert(is_white(s[0]));
        let t = s.drop_first();
        assert forall|j: int| 0 <= j < a - 1 implies is_white(#[trigger] t[j]) by {
            assert(t[j] == s[j + 1]);
        }
        lemma_trim_start(t, a - 1);
        assert(t.subrange(a - 1, t.len() as int) =~= s.subrange(a, s.len() as int));
    }
}

proof fn lemma_trim_end(s: Seq<char>, b: int)
    requires
        0 <= b <= s.len(),
        forall|j: int| b <= j < s.len() ==> is_white(#[trigger] s[j]),
        b == 0 || !is_white(s[b - 1]),
    ensures
        trim_end_spec(s) == s.subrange(0, b),
    decreases s.len() - b,
{
    if b == s.len() {
        assert(s.subrange(0, b) =~= s);
    } else {
        assert(is_white(s.last()));
        let t = s.drop_last();
        assert forall|j: int| b <= j < t.len() implies is_white(#[trigger] t[j]) by {
            assert(t[j] == s[j]);
        }
        lemma_trim_end(t, b);
        assert(t.subrange(0, b) =~= s.subrange(0, b));
    }
}

/// `str::trim`.
pub fn trim_chars(v: &Vec<char>) -> (out: Vec<char>)
    ensures
        out@ == trim_spec(v@),
{
    let mut a: usize = 0;
    while a < v.len() && is_white_exec(v[a])
        invariant
            a <= v.len(),
            forall|j: int| 0 <= j < a ==> is_white(#[trigger] v@[j]),
        decreases v.len() - a,
    {
        a = a + 1;
    }
    proof {
        lemma_trim_start(v@, a as int);
    }
    let mut b: usize = v.len();
    while b > a && is_white_exec(v[b - 1])
        invariant
            a <= b <= v.len(),
            forall|j: int| b <= j < v.len() ==> is_white(#[trigger] v@[j]),
        decreases b,
    {
        b = b - 1;
    }
    let ghost t = v@.subrange(a as int, v.len() as int);
    proof {
        assert forall|j: int| b - a <= j < t.len() implies is_white(#[trigger] t[j]) by {
            assert(t[j] == v@[j + a]);
        }
        if b > a {
            assert(t[b - a - 1] == v@[b - 1]);
        }
        lemma_trim_end(t, b - a);
        assert(t.subrange(0, b - a) =~= v@.subrange(a as int, b as int));
    }
    let mut out: Vec<char> = Vec::new();
    let mut i: usize = a;
    while i < b
        invariant
            a <= i <= b <= v.len(),
            out@ == v@.subrange(a as int, i as int),
        decreases b - i,
    {
        out.push(v[i]);
        assert(v@.subrange(a as int, i + 1) =~= v@.subrange(a as int, i as int).push(v@[i as int]));
        i = i + 1;
    }
    out
}

/// `str::trim` on a string slice.
pub fn trim(s: &str) -> (out: String)
    ensures
        out@ == trim_spec(s@),
{
    let v = chars_of(s);
    let t = trim_chars(&v);
    string_from(&t)
}

/// `str::trim_end_matches(c)` for a single character.
pub fn trim_end_char(s: &str, c: char) -> (out: String)
    ensures
        out@ == trim_end_char_spec(s@, c),
{
    let v = chars_of(s);
    let mut b: usize = v.len();
    assert(v@.subrange(0, b as int) =~= v@);
    while b > 0 && v[b - 1] == c
        invariant
            b <= v.len(),
            v@ == s@,
            trim_end_char_spec(s@, c) == trim_end_char_spec(v@.subrange(0, b as int), c),
        decreases b,
    {
        assert(v@.subrange(0, b as int).drop_last() =~= v@.subrange(0, b - 1));
        b = b - 1;
    }
    proof {
        assert(v@.subrange(0, b as int) =~= v@.subrange(0, b as int));
    }
    let mut out: Vec<char> = Vec::new();
    let mut i: usize = 0;
    while i < b
        invariant
            i <= b <= v.len(),
            out@ == v@.subrange(0, i as int),
        decreases b - i,
    {
        out.push(v[i]);
        assert(v@.subrange(0, i + 1) =~= v@.subrange(0, i as int).push(v@[i as int]));
        i = i + 1;
    }
    string_from(&out)
}

/// `str::split(sep)` for a single-character separator.
pub fn split_char(s: &str, sep: char) -> (out: Vec<String>)
    ensures
        out@.len() == split_spec(s@, sep).len(),
        forall|k: int| 0 <= k < out@.len() ==> #[trigger] out@[k]@ == split_spec(s@, sep)[k],
{
    let v = chars_of(s);
    let mut pieces: Vec<String> = Vec::new();
    let mut cur: Vec<char> = Vec::new();
    let mut i: usize = 0;
    assert(v@.take(0) =~= Seq::<char>::empty());
    while i < v.len()
        invariant
            v@ == s@,
            i <= v.len(),
            split_spec(v@.take(i as int), sep).len() == pieces@.len() + 1,
            forall|k: int| 0 <= k < pieces@.len() ==> #[trigger] pieces@[k]@ == split_spec(v@.take(i as int), sep)[k],
            cur@ == split_spec(v@.take(i as int), sep).last(),
        decreases v.len() - i,
    {
        let ghost pre = v@.take(i as int);
        let ghost nxt = v@.take(i + 1);
        assert(nxt.drop_last() =~= pre);
        assert(nxt.last() == v@[i as int]);
        if v[i] == sep {
            let piece = string_from(&cur);
            pieces.push(piece);
            cur = Vec::new();
        } else {
            cur.push(v[i]);
        }
        i = i + 1;
    }
    assert(v@.take(v.len() as int) =~= v@);
    let last = string_from(&cur);
    pieces.push(last);
    assert forall|k: int| 0 <= k < pieces@.len() implies #[trigger] pieces@[k]@ == split_spec(s@, sep)[k] by {}
    pieces
}

/// `parts.join(sep)`.
pub fn join(parts: &Vec<String>, sep: &str) -> (out: String)
    ensures
        out@ == join_spec(parts@.map_values(|p: String| p@), sep@),
{
    let ghost views = parts@.map_values(|p: String| p@);
    let mut out = String::new();
    let mut i: usize = 0;
    while i < parts.len()
        invariant
            i <= parts.len(),
            views == parts@.map_values(|p: String| p@),
            out@ == join_spec(views.take(i as int), sep@),
        decreases parts.len() - i,
    {
        let ghost nxt = views.take(i + 1);
        assert(nxt.drop_last() =~= views.take(i as int));
        if i > 0 {
            out.append(sep);
        }
        out.append(parts[i].as_str());
        if i == 0 {
            assert(out@ =~= views[0]);
        }
        i = i + 1;
    }
    assert(views.take(parts.len() as int) =~= views);
    out
}

/// `s.replace(pat, rep)` for a non-empty pattern.
pub fn replace_all(s: &str, pat: &str, rep: &str) -> (out: String)
    requires
        pat@.len() > 0,
    ensures
        out@ == replace_spec(s@, pat@, rep@),
{
    let v = chars_of(s);
    let p = chars_of(pat);
    let r = chars_of(rep);
    let mut out: Vec<char> = Vec::new();
    let mut i: usize = 0;
    assert(v@.subrange(0, v.len() as int) =~= v@);
    assert(out@ + replace_spec(v@, pat@, rep@) =~= replace_spec(v@, pat@, rep@));
    while i < v.len()
        invariant
            v@ == s@,
            p@ == pat@,
            r@ == rep@,
            p@.len() > 0,
            i <= v.len(),
            replace_spec(s@, pat@, rep@) == out@ + replace_spec(v@.subrange(i as int, v.len() as int), pat@, rep@),
        decreases v.len() - i,
    {
        let ghost rest = v@.subrange(i as int, v.len() as int);
        if occurs_at_exec(&v, &p, i) {
            assert(rest.subrange(0, p@.len() as int) =~= v@.subrange(i as int, i + p@.len()));
            assert(rest.subrange(p@.len() as int, rest.len() as int) =~= v@.subrange(i + p@.len(), v.len() as int));
            let mut k: usize = 0;
            let ghost before = out@;
            while k < r.len()
                invariant
                    k <= r.len(),
                    out@ == before + r@.take(k as int),
                decreases r.len() - k,
            {
                out.push(r[k]);
                assert(r@.take(k + 1) =~= r@.take(k as int).push(r@[k as int]));
                k = k + 1;
            }
            assert(r@.take(r.len() as int) =~= r@);
            assert(before + (r@ + replace_spec(v@.subrange(i + p@.len(), v.len() as int), pat@, rep@))
                =~= out@ + replace_spec(v@.subrange(i + p@.len(), v.len() as int), pat@, rep@));
            i = i + p.len();
        } else {
            assert(!starts_with_spec(rest, pat@)) by {
                if starts_with_spec(rest, pat@) {
                    assert(rest.subrange(0, p@.len() as int) =~= v@.subrange(i as int, i + p@.len()));
                }
            }
            assert(rest.drop_first() =~= v@.subrange(i + 1, v.len() as int));
            let ghost before = out@;
            out.push(v[i]);
            assert(before + (seq![v@[i as int]] + replace_spec(v@.subrange(i + 1, v.len() as int), pat@, rep@))
                =~= out@ + replace_spec(v@.subrange(i + 1, v.len() as int), pat@, rep@));
            i = i + 1;
        }
    }
    assert(v@.subrange(v.len() as int, v.len() as int) =~= Seq::<char>::empty());
    assert(out@ + Seq::<char>::empty() =~= out@);
    string_from(&out)
}

// ---------------------------------------------------------------------------
// Unicode lower-casing (std)
// ---------------------------------------------------------------------------

/// What `str::to_lowercase` returns for a string.
pub uninterp spec fn lowercase(s: Seq<char>) -> Seq<char>;

pub open spec fn is_ascii_seq(s: Seq<char>) -> bool {
    forall|i: int| 0 <= i < s.len() ==> (#[trigger] s[i] as u32) < 128
}

/// `str::to_lowercase`. The result is named by `lowercase`; the facts
/// stated beside the name are those for ASCII text. std lower-cases a string
/// by the Unicode lowercase mapping of each character, where only the
/// final-sigma rule looks at a character's neighbours: an ASCII character
/// becomes its ASCII lowercase (`A`..=`Z` to `a`..=`z`, all others kept)
/// wherever it stands. So an ASCII string is lowered character by character,
/// and a string that ends in ASCII text ends, once lowered, in that text
/// lowered. What it does to other scripts is left unsaid.
#[verifier::external_body]
pub(crate) fn to_lower(s: &str) -> (out: String)
    ensures
        out@ == lowercase(s@),
        is_ascii_seq(s@) ==> out@ == s@.map_values(|c: char| ascii_lower_char(c)),
        forall|k: int|
            0 <= k <= s@.len() && is_ascii_seq(#[trigger] s@.subrange(k, s@.len() as int)) ==> {
                &&& s@.len() - k <= out@.len()
                &&& out@.subrange(out@.len() - (s@.len() - k), out@.len() as int) == s@.subrange(
                    k,
                    s@.len() as int,
                ).map_values(|c: char| ascii_lower_char(c))
            },
{
    s.to_lowercase()
}

// ---------------------------------------------------------------------------
// Decimal numbers
// ---------------------------------------------------------------------------

proof fn lemma_digits_nonneg(s: Seq<char>)
    requires
        all_digits(s),
    ensures
        digits_value(s) >= 0,
    decreases s.len(),
{
    if s.len() > 0 {
        lemma_digits_nonneg(s.drop_last());
    }
}

proof fn lemma_digits_monotone(s: Seq<char>, k: int)
    requires
        all_digits(s),
        0 <= k <= s.len(),
    ensures
        digits_value(s.take(k)) <= digits_value(s),
    decreases s.len(),
{
    if k < s.len() {
        lemma_digits_monotone(s.drop_last(), k);
        assert(s.drop_last().take(k) =~= s.take(k));
        lemma_digits_nonneg(s.drop_last());
    } else {
        assert(s.take(k) =~= s);
    }
}

/// Scans a run of decimal digits starting at `start`. `None` when a
/// non-digit occurs or the value passes `limit`; otherwise the value.
fn scan_digits(v: &Vec<char>, start: usize, limit: u128) -> (r: Option<u128>)
    requires
        start <= v.len(),
        limit <= 0x1_0000_0000_0000_0000,
    ensures
        match r {
            Some(x) => all_digits(v@.subrange(start as int, v.len() as int)) && x == digits_value(
                v@.subrange(start as int, v.len() as int),
            ) && x <= limit,
            None => !all_digits(v@.subrange(start as int, v.len() as int)) || digits_value(
                v@.subrange(start as int, v.len() as int),
            ) > limit,
        },
{
    let ghost body = v@.subrange(start as int, v.len() as int);
    let mut acc: u128 = 0;
    let mut i: usize = start;
    assert(body.take(0) =~= Seq::<char>::empty());
    while i < v.len()
        invariant
            start <= i <= v.len(),
            body == v@.subrange(start as int, v.len() as int),
            limit <= 0x1_0000_0000_0000_0000,
            all_digits(body.take(i - start)),
            acc == digits_value(body.take(i - start)),
            acc <= limit,
        decreases v.len() - i,
    {
        let c = v[i];
        let ghost pre = body.take(i - start);
        let ghost nxt = body.take(i - start + 1);
        assert(nxt.drop_last() =~= pre);
        assert(nxt.last() == c);
        if !('0' <= c && c <= '9') {
            assert(!is_digit(body[i - start]));
            return None;
        }
        let d: u128 = ((c as u32) - ('0' as u32)) as u128;
        acc = acc * 10 + d;
        assert(all_digits(nxt)) by {
            assert forall|j: int| 0 <= j < nxt.len() implies is_digit(#[trigger] nxt[j]) by {
                if j < nxt.len() - 1 {
                    assert(nxt[j] == pre[j]);
                }
            }
        }
        if acc > limit {
            proof {
                if all_digits(body) {
                    lemma_digits_monotone(body, i - start + 1);
                }
            }
            return None;
        }
        i = i + 1;
    }
    assert(body.take(v.len() - start) =~= body);
    Some(acc)
}

/// `i64::from_str`.
pub fn parse_i64(s: &str) -> (r: Option<i64>)
    ensures
        r == parse_i64_spec(s@),
{
    let v = chars_of(s);
    if v.len() == 0 {
        return None;
    }
    let neg = v[0] == '-';
    let start: usize = if v[0] == '-' || v[0] == '+' { 1 } else { 0 };
    let ghost body = if v@[0] == '-' || v@[0] == '+' { v@.drop_first() } else { v@ };
    assert(body =~= v@.subrange(start as int, v.len() as int));
    if start >= v.len() {
        return None;
    }
    match scan_digits(&v, start, 0x8000_0000_0000_0000) {
        None => None,
        Some(x) => {
            if neg {
                let w: i128 = -(x as i128);
                Some(w as i64)
            } else if x <= 0x7fff_ffff_ffff_ffff {
                Some(x as i64)
            } else {
                None
            }
        },
    }
}

/// `u64::from_str`.
pub fn parse_u64(s: &str) -> (r: Option<u64>)
    ensures
        r == parse_u64_spec(s@),
{
    let v = chars_of(s);
    if v.len() == 0 {
        return None;
    }
    let start: usize = if v[0] == '+' { 1 } else { 0 };
    let ghost body = if v@[0] == '+' { v@.drop_first() } else { v@ };
    assert(body =~= v@.subrange(start as int, v.len() as int));
    if start >= v.len() {
        return None;
    }
    match scan_digits(&v, start, 0xffff_ffff_ffff_ffff) {
        None => None,
        Some(x) => Some(x as u64),
    }
}

/// The `Display` text of an `i64`.
pub fn decimal(n: i64) -> (out: String)
    ensures
        out@ == decimal_spec(n as int),
{
    let neg = n < 0;
    let mag: u64 = if neg { (-(n as i128)) as u64 } else { n as u64 };
    let mut m: u64 = mag;
    let mut acc: Vec<char> = Vec::new();
    while m >= 10
        invariant
            nat_digits(mag as nat) == nat_digits(m as nat) + acc@.reverse(),
        decreases m,
    {
        let d: u64 = m % 10;
        let c: char = ((d as u8) + 48) as char;
        assert(c == digit_char(d as int));
        let ghost old_acc = acc@;
        acc.push(c);
        assert(acc@.reverse() =~= seq![c] + old_acc.reverse());
        m = m / 10;
    }
    let c: char = ((m as u8) + 48) as char;
    assert(c == digit_char(m as int));
    let ghost old_acc = acc@;
    acc.push(c);
    assert(acc@.reverse() =~= seq![c] + old_acc.reverse());
    assert(nat_digits(mag as nat) =~= acc@.reverse());
    let mut out = String::new();
    if neg {
        push_char(&mut out, '-');
    }
    let ghost prefix = out@;
    let mut i: usize = acc.len();
    while i > 0
        invariant
            i <= acc.len(),
            out@ == prefix + acc@.reverse().take(acc.len() - i),
        decreases i,
    {
        i = i - 1;
        push_char(&mut out, acc[i]);
        assert(acc@.reverse().take(acc.len() - i) =~= acc@.reverse().take(acc.len() - i - 1).push(acc@[i as int]));
    }
    assert(acc@.reverse().take(acc.len() as int) =~= acc@.reverse());
    out
}

} // verus!
