//! Text helpers: whitespace trimming, case mapping, ordering and joining.
use vstd::prelude::*;

verus! {

pub assume_specification[ String::push ](s: &mut String, ch: char)
    ensures
        final(s)@ == old(s)@.push(ch),
;

/// `c` has the Unicode `White_Space` property.
pub open spec fn is_white_space(c: char) -> bool {
    let x = c as u32;
    ||| (0x9 <= x && x <= 0xd)
    ||| x == 0x20
    ||| x == 0x85
    ||| x == 0xa0
    ||| x == 0x1680
    ||| (0x2000 <= x && x <= 0x200a)
    ||| x == 0x2028
    ||| x == 0x2029
    ||| x == 0x202f
    ||| x == 0x205f
    ||| x == 0x3000
}

/// Whether `c` has the Unicode `White_Space` property, as
/// `char::is_whitespace` decides it.
pub(crate) fn char_is_whitespace(c: char) -> (b: bool)
    ensures
        b == is_white_space(c),
{
    let x = c as u32;
    (0x9 <= x && x <= 0xd) || x == 0x20 || x == 0x85 || x == 0xa0 || x == 0x1680 || (0x2000 <= x && x
        <= 0x200a) || x == 0x2028 || x == 0x2029 || x == 0x202f || x == 0x205f || x == 0x3000
}

/// How many whitespace characters `s` starts with.
pub open spec fn leading_white(s: Seq<char>) -> nat
    decreases s.len(),
{
    if s.len() > 0 && is_white_space(s[0]) {
        1 + leading_white(s.drop_first())
    } else {
        0
    }
}

/// How many whitespace characters `s` ends with.
pub open spec fn trailing_white(s: Seq<char>) -> nat
    decreases s.len(),
{
    if s.len() > 0 && is_white_space(s.last()) {
        1 + trailing_white(s.drop_last())
    } else {
        0
    }
}

/// `s` without its leading and trailing whitespace.
pub open spec fn trimmed(s: Seq<char>) -> Seq<char> {
    if leading_white(s) == s.len() {
        Seq::empty()
    } else {
        s.subrange(leading_white(s) as int, s.len() - trailing_white(s))
    }
}

/// Every character of `s` is ASCII.
pub open spec fn is_ascii_text(s: Seq<char>) -> bool {
    forall|i: int| 0 <= i < s.len() ==> (#[trigger] s[i] as u32) < 128
}

/// `c` lower-cased the ASCII way: `A`-`Z` become `a`-`z`.
pub open spec fn ascii_lower_char(c: char) -> char {
    if 'A' <= c && c <= 'Z' {
        ((c as u32) + 32) as char
    } else {
        c
    }
}

/// `c` upper-cased the ASCII way: `a`-`z` become `A`-`Z`.
pub open spec fn ascii_upper_char(c: char) -> char {
    if 'a' <= c && c <= 'z' {
        ((c as u32) - 32) as char
    } else {
        c
    }
}

/// `s` lower-cased character by character the ASCII way.
pub open spec fn ascii_lower(s: Seq<char>) -> Seq<char> {
    Seq::new(s.len(), |i: int| ascii_lower_char(s[i]))
}

/// `s` upper-cased character by character the ASCII way.
pub open spec fn ascii_upper(s: Seq<char>) -> Seq<char> {
    Seq::new(s.len(), |i: int| ascii_upper_char(s[i]))
}

/// The Unicode lower-case mapping of `s`.
pub uninterp spec fn lowercase_of(s: Seq<char>) -> Seq<char>;

/// The Unicode upper-case mapping of `s`.
pub uninterp spec fn uppercase_of(s: Seq<char>) -> Seq<char>;

/// The lower-case form of `s`: on ASCII text the ASCII mapping, elsewhere
/// the Unicode mapping.
pub open spec fn text_lowercase(s: Seq<char>) -> Seq<char> {
    if is_ascii_text(s) {
        ascii_lower(s)
    } else {
        lowercase_of(s)
    }
}

/// The upper-case form of `s`: on ASCII text the ASCII mapping, elsewhere
/// the Unicode mapping.
pub open spec fn text_uppercase(s: Seq<char>) -> Seq<char> {
    if is_ascii_text(s) {
        ascii_upper(s)
    } else {
        uppercase_of(s)
    }
}

/// `str::to_lowercase`: the Unicode lower-case mapping of `s`, named by
/// `lowercase_of`.  On ASCII text it maps `A`-`Z` to `a`-`z` and keeps every
/// other character, as Unicode's mapping does there.
#[verifier::external_body]
pub(crate) fn to_lowercase(s: &str) -> (lower: String)
    ensures
        lower@ == lowercase_of(s@),
        is_ascii_text(s@) ==> lower@ == ascii_lower(s@),
{
    s.to_lowercase()
}

/// `str::to_uppercase`: the Unicode upper-case mapping of `s`, named by
/// `uppercase_of`.  On ASCII text it maps `a`-`z` to `A`-`Z` and keeps every
/// other character, as Unicode's mapping does there.
#[verifier::external_body]
pub(crate) fn to_uppercase(s: &str) -> (upper: String)
    ensures
        upper@ == uppercase_of(s@),
        is_ascii_text(s@) ==> upper@ == ascii_upper(s@),
{
    s.to_uppercase()
}

/// `s` with `f` applied to each character.
pub open spec fn map_chars(s: Seq<char>, f: spec_fn(char) -> char) -> Seq<char> {
    Seq::new(s.len(), |i: int| f(s[i]))
}

/// ASCII case mapping keeps whitespace, keeps ASCII text ASCII, and
/// mapping to one case forgets the other.
pub proof fn lemma_ascii_case_char(c: char)
    ensures
        is_white_space(ascii_lower_char(c)) == is_white_space(c),
        is_white_space(ascii_upper_char(c)) == is_white_space(c),
        (c as u32) < 128 ==> (ascii_lower_char(c) as u32) < 128 && (ascii_upper_char(c) as u32) < 128,
        ascii_lower_char(ascii_upper_char(c)) == ascii_lower_char(c),
        ascii_upper_char(ascii_lower_char(c)) == ascii_upper_char(c),
{
}

/// A character map that keeps whitespace keeps the length of leading
/// whitespace.
proof fn lemma_leading_white_map(s: Seq<char>, f: spec_fn(char) -> char)
    requires
        forall|c: char| #[trigger] is_white_space(f(c)) == is_white_space(c),
    ensures
        leading_white(map_chars(s, f)) == leading_white(s),
    decreases s.len(),
{
    if s.len() > 0 {
        assert(map_chars(s, f).drop_first() =~= map_chars(s.drop_first(), f));
        assert(map_chars(s, f)[0] == f(s[0]));
        lemma_leading_white_map(s.drop_first(), f);
    }
}

/// A character map that keeps whitespace keeps the length of trailing
/// whitespace.
proof fn lemma_trailing_white_map(s: Seq<char>, f: spec_fn(char) -> char)
    requires
        forall|c: char| #[trigger] is_white_space(f(c)) == is_white_space(c),
    ensures
        trailing_white(map_chars(s, f)) == trailing_white(s),
    decreases s.len(),
{
    if s.len() > 0 {
        assert(map_chars(s, f).drop_last() =~= map_chars(s.drop_last(), f));
        assert(map_chars(s, f).last() == f(s.last()));
        lemma_trailing_white_map(s.drop_last(), f);
    }
}

/// Trimming commutes with a character map that keeps whitespace.
pub proof fn lemma_trimmed_map(s: Seq<char>, f: spec_fn(char) -> char)
    requires
        forall|c: char| #[trigger] is_white_space(f(c)) == is_white_space(c),
    ensures
        trimmed(map_chars(s, f)) == map_chars(trimmed(s), f),
{
    lemma_leading_white_map(s, f);
    lemma_trailing_white_map(s, f);
    lemma_leading_white_bound(s);
    lemma_trailing_white_bound(s);
    assert(trimmed(map_chars(s, f)) =~= map_chars(trimmed(s), f));
}

/// Trimming commutes with ASCII case mapping, and both keep ASCII text
/// ASCII.
pub proof fn lemma_ascii_case_trim(s: Seq<char>)
    ensures
        trimmed(ascii_lower(s)) == ascii_lower(trimmed(s)),
        trimmed(ascii_upper(s)) == ascii_upper(trimmed(s)),
        is_ascii_text(s) ==> is_ascii_text(ascii_lower(s)) && is_ascii_text(ascii_upper(s))
            && is_ascii_text(trimmed(s)),
{
    let lo = |c: char| ascii_lower_char(c);
    let up = |c: char| ascii_upper_char(c);
    assert forall|c: char| #[trigger] is_white_space(lo(c)) == is_white_space(c) by {
        lemma_ascii_case_char(c);
    }
    assert forall|c: char| #[trigger] is_white_space(up(c)) == is_white_space(c) by {
        lemma_ascii_case_char(c);
    }
    lemma_trimmed_map(s, lo);
    lemma_trimmed_map(s, up);
    assert(ascii_lower(s) =~= map_chars(s, lo));
    assert(ascii_upper(s) =~= map_chars(s, up));
    assert(ascii_lower(trimmed(s)) =~= map_chars(trimmed(s), lo));
    assert(ascii_upper(trimmed(s)) =~= map_chars(trimmed(s), up));
    if is_ascii_text(s) {
        assert forall|i: int| 0 <= i < ascii_lower(s).len() implies (#[trigger] ascii_lower(s)[i] as u32)
            < 128 by {
            lemma_ascii_case_char(s[i]);
        }
        assert forall|i: int| 0 <= i < ascii_upper(s).len() implies (#[trigger] ascii_upper(s)[i] as u32)
            < 128 by {
            lemma_ascii_case_char(s[i]);
        }
        lemma_leading_white_bound(s);
        lemma_trailing_white_bound(s);
        assert forall|i: int| 0 <= i < trimmed(s).len() implies (#[trigger] trimmed(s)[i] as u32) < 128 by {
            assert(trimmed(s)[i] == s[i + leading_white(s)]);
        }
    }
}

/// On ASCII text, upper-casing then lower-casing is lower-casing, and
/// lower-casing then upper-casing is upper-casing.
pub proof fn lemma_ascii_case_absorb(s: Seq<char>)
    ensures
        ascii_lower(ascii_upper(s)) == ascii_lower(s),
        ascii_upper(ascii_lower(s)) == ascii_upper(s),
{
    assert forall|i: int| 0 <= i < s.len() implies #[trigger] ascii_lower(ascii_upper(s))[i]
        == ascii_lower(s)[i] by {
        lemma_ascii_case_char(s[i]);
    }
    assert forall|i: int| 0 <= i < s.len() implies #[trigger] ascii_upper(ascii_lower(s))[i]
        == ascii_upper(s)[i] by {
        lemma_ascii_case_char(s[i]);
    }
    assert(ascii_lower(ascii_upper(s)) =~= ascii_lower(s));
    assert(ascii_upper(ascii_lower(s)) =~= ascii_upper(s));
}

/// The leading whitespace of `s` is a prefix of whitespace ended by the
/// first other character.
pub proof fn lemma_leading_white_bound(s: Seq<char>)
    ensures
        leading_white(s) <= s.len(),
        forall|i: int| 0 <= i < leading_white(s) ==> is_white_space(#[trigger] s[i]),
        leading_white(s) < s.len() ==> !is_white_space(s[leading_white(s) as int]),
    decreases s.len(),
{
    if s.len() > 0 && is_white_space(s[0]) {
        lemma_leading_white_bound(s.drop_first());
        assert forall|i: int| 0 <= i < leading_white(s) implies is_white_space(#[trigger] s[i]) by {
            if i > 0 {
                assert(s[i] == s.drop_first()[i - 1]);
            }
        }
    }
}

/// The trailing whitespace of `s` is a suffix of whitespace preceded by
/// the last other character.
pub proof fn lemma_trailing_white_bound(s: Seq<char>)
    ensures
        trailing_white(s) <= s.len(),
        forall|i: int|
            s.len() - trailing_white(s) <= i < s.len() ==> is_white_space(#[trigger] s[i]),
        trailing_white(s) < s.len() ==> !is_white_space(s[s.len() - trailing_white(s) - 1]),
    decreases s.len(),
{
    if s.len() > 0 && is_white_space(s.last()) {
        lemma_trailing_white_bound(s.drop_last());
        assert forall|i: int|
            s.len() - trailing_white(s) <= i < s.len() implies is_white_space(#[trigger] s[i]) by {
            if i < s.len() - 1 {
                assert(s[i] == s.drop_last()[i]);
            }
        }
    }
}

/// A string with no whitespace at either end is its own trim.
pub proof fn lemma_trim_noop(s: Seq<char>)
    requires
        s.len() > 0 ==> !is_white_space(s[0]) && !is_white_space(s.last()),
    ensures
        trimmed(s) == s,
{
    if s.len() > 0 {
        assert(s.subrange(0, s.len() as int) =~= s);
    }
}

/// Trimmed text is its own trim.
pub proof fn lemma_trimmed_idempotent(s: Seq<char>)
    ensures
        trimmed(trimmed(s)) == trimmed(s),
{
    lemma_leading_white_bound(s);
    lemma_trailing_white_bound(s);
    let t = trimmed(s);
    if t.len() > 0 {
        assert(t[0] == s[leading_white(s) as int]);
        assert(t.last() == s[s.len() - trailing_white(s) - 1]);
    }
    lemma_trim_noop(t);
}

/// The characters of `s`, in order.
pub fn chars_of(s: &str) -> (res: Vec<char>)
    ensures
        res@ == s@,
{
    let mut res: Vec<char> = Vec::new();
    for c in it: s.chars()
        invariant
            res@ == it.seq().take(it.index() as int),
    {
        res.push(c);
    }
    res
}

/// A string of the characters `chars[from..to]`.
pub fn string_from_chars(chars: &[char], from: usize, to: usize) -> (res: String)
    requires
        from <= to <= chars@.len(),
    ensures
        res@ == chars@.subrange(from as int, to as int),
{
    let mut res = String::new();
    let mut i: usize = from;
    while i < to
        invariant
            from <= i <= to,
            to <= chars@.len(),
            res@ == chars@.subrange(from as int, i as int),
        decreases to - i,
    {
        res.push(chars[i]);
        i += 1;
        assert(res@ =~= chars@.subrange(from as int, i as int));
    }
    res
}

/// Appends the characters of `s`.
pub fn push_str(out: &mut String, s: &str)
    ensures
        final(out)@ == old(out)@ + s@,
{
    let chars = chars_of(s);
    let ghost start = out@;
    let mut i: usize = 0;
    while i < chars.len()
        invariant
            i <= chars@.len(),
            chars@ == s@,
            out@ == start + chars@.take(i as int),
        decreases chars@.len() - i,
    {
        out.push(chars[i]);
        i += 1;
        assert(out@ =~= start + chars@.take(i as int));
    }
    assert(chars@.take(chars@.len() as int) =~= chars@);
}

/// `s` without its leading and trailing whitespace.
pub fn trim(s: &str) -> (res: String)
    ensures
        res@ == trimmed(s@),
{
    proof {
        lemma_leading_white_bound(s@);
        lemma_trailing_white_bound(s@);
    }
    let chars = chars_of(s);
    let n = chars.len();
    let mut start: usize = 0;
    while start < n && char_is_whitespace(chars[start])
        invariant
            start <= n,
            n == chars@.len(),
            chars@ == s@,
            forall|i: int| 0 <= i < start ==> is_white_space(#[trigger] chars@[i]),
            leading_white(s@) <= n,
            forall|i: int| 0 <= i < leading_white(s@) ==> is_white_space(#[trigger] s@[i]),
            leading_white(s@) < n ==> !is_white_space(s@[leading_white(s@) as int]),
            start <= leading_white(s@),
        decreases n - start,
    {
        start += 1;
    }
    if start == n {
        return String::new();
    }
    assert(start == leading_white(s@));
    let mut end: usize = n;
    while end > start && char_is_whitespace(chars[end - 1])
        invariant
            start < n,
            start <= end <= n,
            n == chars@.len(),
            chars@ == s@,
            start == leading_white(s@),
            !is_white_space(chars@[start as int]),
            trailing_white(s@) <= n,
            forall|i: int| n - trailing_white(s@) <= i < n ==> is_white_space(#[trigger] s@[i]),
            trailing_white(s@) < n ==> !is_white_space(s@[n - trailing_white(s@) - 1]),
            n - end <= trailing_white(s@),
        decreases end,
    {
        end -= 1;
    }
    assert(end == n - trailing_white(s@));
    string_from_chars(chars.as_slice(), start, end)
}

/// `a` sorts strictly before `b` in code-point (and UTF-8 byte) order.
pub open spec fn chars_lt(a: Seq<char>, b: Seq<char>) -> bool
    decreases a.len(),
{
    if b.len() == 0 {
        false
    } else if a.len() == 0 {
        true
    } else if a[0] != b[0] {
        a[0] < b[0]
    } else {
        chars_lt(a.drop_first(), b.drop_first())
    }
}

/// Code-point order is transitive.
pub proof fn lemma_chars_lt_transitive(a: Seq<char>, b: Seq<char>, c: Seq<char>)
    requires
        chars_lt(a, b),
        chars_lt(b, c),
    ensures
        chars_lt(a, c),
    decreases a.len(),
{
    if a.len() > 0 && a[0] == b[0] && b[0] == c[0] {
        lemma_chars_lt_transitive(a.drop_first(), b.drop_first(), c.drop_first());
    }
}

/// Code-point order is a strict total order: of two different strings,
/// exactly one sorts first.
pub proof fn lemma_chars_lt_total(a: Seq<char>, b: Seq<char>)
    ensures
        !(chars_lt(a, b) && chars_lt(b, a)),
        a != b ==> chars_lt(a, b) || chars_lt(b, a),
        !chars_lt(a, a),
    decreases a.len(),
{
    if a.len() > 0 && b.len() > 0 && a[0] == b[0] {
        lemma_chars_lt_total(a.drop_first(), b.drop_first());
        if a.drop_first() == b.drop_first() {
            assert(a =~= seq![a[0]] + a.drop_first());
            assert(b =~= seq![b[0]] + b.drop_first());
            assert(a =~= b);
        }
    }
    if a.len() > 0 {
        lemma_chars_lt_total(a.drop_first(), a.drop_first());
    }
    if a.len() == 0 && b.len() == 0 {
        assert(a =~= b);
    }
}

/// Whether `a` sorts strictly before `b`.
pub fn str_lt(a: &str, b: &str) -> (lt: bool)
    ensures
        lt == chars_lt(a@, b@),
{
    let x = chars_of(a);
    let y = chars_of(b);
    let mut i: usize = 0;
    assert(a@.skip(0) =~= a@);
    assert(b@.skip(0) =~= b@);
    while i < x.len() && i < y.len() && x[i] == y[i]
        invariant
            i <= x@.len(),
            i <= y@.len(),
            x@ == a@,
            y@ == b@,
            chars_lt(a@, b@) == chars_lt(a@.skip(i as int), b@.skip(i as int)),
        decreases x@.len() - i,
    {
        proof {
            assert(a@.skip(i as int).drop_first() =~= a@.skip(i + 1));
            assert(b@.skip(i as int).drop_first() =~= b@.skip(i + 1));
        }
        i += 1;
    }
    if i == y.len() {
        false
    } else if i == x.len() {
        true
    } else {
        x[i] < y[i]
    }
}

/// Whether two strings hold the same characters.
pub fn str_eq(a: &str, b: &str) -> (eq: bool)
    ensures
        eq == (a@ == b@),
{
    let x = chars_of(a);
    let y = chars_of(b);
    if x.len() != y.len() {
        return false;
    }
    let mut i: usize = 0;
    while i < x.len()
        invariant
            i <= x@.len(),
            x@.len() == y@.len(),
            x@ == a@,
            y@ == b@,
            forall|j: int| 0 <= j < i ==> x@[j] == y@[j],
        decreases x@.len() - i,
    {
        if x[i] != y[i] {
            return false;
        }
        i += 1;
    }
    assert(x@ =~= y@);
    true
}

/// Whether `haystack` contains `needle` as a contiguous part.
pub open spec fn contains_chars(haystack: Seq<char>, needle: Seq<char>) -> bool {
    exists|i: int|
        0 <= i && i + needle.len() <= haystack.len() && #[trigger] haystack.subrange(
            i,
            i + needle.len(),
        ) == needle
}

/// `str::contains` for a string needle.
pub fn str_contains(haystack: &str, needle: &str) -> (found: bool)
    ensures
        found == contains_chars(haystack@, needle@),
{
    let h = chars_of(haystack);
    let n = chars_of(needle);
    if n.len() > h.len() {
        return false;
    }
    let last: usize = h.len() - n.len();
    let mut i: usize = 0;
    loop
        invariant
            h@ == haystack@,
            n@ == needle@,
            n@.len() <= h@.len(),
            last == h@.len() - n@.len(),
            i <= last,
            forall|k: int| 0 <= k < i ==> #[trigger] haystack@.subrange(k, k + needle@.len()) != needle@,
        decreases last - i,
    {
        let mut j: usize = 0;
        let mut matched = true;
        while j < n.len()
            invariant
                j <= n@.len(),
                i + n@.len() <= h@.len(),
                h@ == haystack@,
                n@ == needle@,
                matched == forall|q: int| 0 <= q < j ==> h@[i + q] == n@[q],
            decreases n@.len() - j,
        {
            assert(i + j < h.len());
            if h[i + j] != n[j] {
                matched = false;
            }
            j += 1;
        }
        if matched {
            assert(haystack@.subrange(i as int, i + needle@.len()) =~= needle@);
            return true;
        }
        assert(haystack@.subrange(i as int, i + needle@.len()) != needle@) by {
            let q = choose|q: int| 0 <= q < n@.len() && h@[i + q] != n@[q];
            assert(haystack@.subrange(i as int, i + needle@.len())[q] != needle@[q]);
        }
        if i == last {
            return false;
        }
        i += 1;
    }
}

/// The decimal digits of `n`, without leading zeros (`0` for zero).
pub open spec fn decimal(n: nat) -> Seq<char>
    decreases n,
{
    if n < 10 {
        seq![(48 + n) as char]
    } else {
        decimal(n / 10).push((48 + n % 10) as char)
    }
}

/// `n` in decimal.
pub fn decimal_string(n: u64) -> (text: String)
    ensures
        text@ == decimal(n as nat),
{
    let mut digits: Vec<char> = Vec::new();
    let mut m: u64 = n;
    let ghost mut done: Seq<char> = Seq::empty();
    loop
        invariant_except_break
            decimal(n as nat) == decimal(m as nat) + digits@.reverse(),
        ensures
            decimal(n as nat) == digits@.reverse(),
        decreases m,
    {
        let d = m % 10;
        let c: char = if d == 0 { '0' } else if d == 1 { '1' } else if d == 2 { '2' } else if d == 3 {
            '3'
        } else if d == 4 { '4' } else if d == 5 { '5' } else if d == 6 { '6' } else if d == 7 {
            '7'
        } else if d == 8 { '8' } else { '9' };
        assert(c == (48 + d) as char);
        let ghost before = digits@;
        digits.push(c);
        proof {
            assert(digits@.reverse() =~= seq![c] + before.reverse());
        }
        if m < 10 {
            proof {
                assert(decimal(m as nat) =~= seq![c]);
                assert(decimal(n as nat) =~= digits@.reverse());
            }
            break;
        }
        proof {
            assert(decimal(m as nat) == decimal((m / 10) as nat).push(c));
            assert(decimal((m / 10) as nat).push(c) + before.reverse() =~= decimal((m / 10) as nat)
                + digits@.reverse());
        }
        m = m / 10;
    }
    let mut text = String::new();
    let mut i: usize = digits.len();
    while i > 0
        invariant
            i <= digits@.len(),
            text@ == digits@.reverse().take(digits@.len() - i),
        decreases i,
    {
        i -= 1;
        text.push(digits[i]);
        assert(text@ =~= digits@.reverse().take(digits@.len() - i));
    }
    assert(digits@.reverse().take(digits@.len() as int) =~= digits@.reverse());
    text
}

/// The lines of `s` as `str::lines` gives them: split after each `\n`,
/// the `\n` and a `\r` just before it dropped; text after the last `\n`
/// is a last line when it is not empty.
pub open spec fn text_lines(s: Seq<char>) -> Seq<Seq<char>>
    decreases s.len(),
{
    if s.len() == 0 {
        Seq::empty()
    } else {
        let i = first_newline(s);
        proof {
            lemma_first_newline(s);
        }
        if i == s.len() {
            seq![s]
        } else {
            let line = s.take(i);
            let line = if line.len() > 0 && line.last() == '\r' {
                line.drop_last()
            } else {
                line
            };
            seq![line] + text_lines(s.skip(i + 1))
        }
    }
}

/// The position of the first `\n` in `s`, or its length when it has none.
pub open spec fn first_newline(s: Seq<char>) -> int
    decreases s.len(),
{
    if s.len() == 0 {
        0
    } else if s[0] == '\n' {
        0
    } else {
        1 + first_newline(s.drop_first())
    }
}

/// `first_newline` is the position of the first newline, or the length
/// when there is none.
pub proof fn lemma_first_newline(s: Seq<char>)
    ensures
        0 <= first_newline(s) <= s.len(),
        forall|j: int| 0 <= j < first_newline(s) ==> s[j] != '\n',
        first_newline(s) < s.len() ==> s[first_newline(s)] == '\n',
    decreases s.len(),
{
    if s.len() > 0 && s[0] != '\n' {
        lemma_first_newline(s.drop_first());
        assert forall|j: int| 0 <= j < first_newline(s) implies s[j] != '\n' by {
            if j > 0 {
                assert(s[j] == s.drop_first()[j - 1]);
            }
        }
        if first_newline(s) < s.len() {
            assert(s[first_newline(s)] == s.drop_first()[first_newline(s.drop_first())]);
        }
    }
}

/// The lines of `s`.
pub fn lines_of(s: &str) -> (lines: Vec<String>)
    ensures
        lines@.len() == text_lines(s@).len(),
        forall|i: int| 0 <= i < lines@.len() ==> (#[trigger] lines@[i])@ == text_lines(s@)[i],
{
    let chars = chars_of(s);
    let n = chars.len();
    let mut lines: Vec<String> = Vec::new();
    let mut start: usize = 0;
    assert(s@.skip(0) =~= s@);
    assert(lines@.map_values(|l: String| l@) + text_lines(s@) =~= text_lines(s@));
    while start < n
        invariant
            start <= n,
            n == chars@.len(),
            chars@ == s@,
            text_lines(s@) == lines@.map_values(|l: String| l@) + text_lines(s@.skip(start as int)),
        decreases n - start,
    {
        let ghost rest = s@.skip(start as int);
        proof {
            lemma_first_newline(rest);
        }
        let mut end: usize = start;
        while end < n && chars[end] != '\n'
            invariant
                start <= end <= n,
                n == chars@.len(),
                chars@ == s@,
                rest == s@.skip(start as int),
                forall|j: int| start <= j < end ==> chars@[j] != '\n',
                0 <= first_newline(rest) <= rest.len(),
                forall|j: int| 0 <= j < first_newline(rest) ==> rest[j] != '\n',
                first_newline(rest) < rest.len() ==> rest[first_newline(rest)] == '\n',
            decreases n - end,
        {
            end += 1;
        }
        assert(end - start == first_newline(rest)) by {
            if end - start < first_newline(rest) {
                assert(rest[end - start] == chars@[end as int]);
            } else if end - start > first_newline(rest) {
                assert(chars@[start + first_newline(rest)] == rest[first_newline(rest)]);
            }
        }
        let ghost before = lines@;
        let line_end: usize = if end < n && end > start && chars[end - 1] == '\r' {
            end - 1
        } else {
            end
        };
        let line = string_from_chars(chars.as_slice(), start, line_end);
        lines.push(line);
        proof {
            assert(rest.take(end - start) =~= chars@.subrange(start as int, end as int));
            if end < n && end > start && chars@[end - 1] == '\r' {
                assert(rest.take(end - start).drop_last() =~= chars@.subrange(start as int, line_end as int));
            }
            assert(lines@.map_values(|l: String| l@) =~= before.map_values(|l: String| l@).push(line@));
        }
        if end == n {
            proof {
                assert(rest =~= chars@.subrange(start as int, end as int));
                assert(text_lines(rest) == seq![rest]);
                assert(s@.skip(n as int).len() == 0);
                assert(text_lines(s@) =~= lines@.map_values(|l: String| l@) + text_lines(s@.skip(n as int)));
            }
            start = n;
        } else {
            proof {
                assert(rest.skip(end - start + 1) =~= s@.skip(end + 1));
                assert(text_lines(s@) =~= lines@.map_values(|l: String| l@) + text_lines(s@.skip(end + 1)));
            }
            start = end + 1;
        }
    }
    assert(s@.skip(n as int).len() == 0);
    assert(text_lines(s@) =~= lines@.map_values(|l: String| l@));
    lines
}

/// The views of a sequence of strings.
pub open spec fn views(strings: Seq<String>) -> Seq<Seq<char>> {
    strings.map_values(|x: String| x@)
}

/// `parts` joined with `sep` between neighbours.
pub open spec fn joined(parts: Seq<Seq<char>>, sep: Seq<char>) -> Seq<char>
    decreases parts.len(),
{
    if parts.len() == 0 {
        Seq::empty()
    } else if parts.len() == 1 {
        parts[0]
    } else {
        joined(parts.drop_last(), sep) + sep + parts.last()
    }
}

/// The strings of `parts` joined with `sep` between neighbours.
pub fn join_strings(parts: &Vec<String>, sep: &str) -> (text: String)
    ensures
        text@ == joined(views(parts@), sep@),
{
    let mut text = String::new();
    let mut i: usize = 0;
    while i < parts.len()
        invariant
            i <= parts@.len(),
            text@ == joined(views(parts@.take(i as int)), sep@),
        decreases parts@.len() - i,
    {
        if i > 0 {
            push_str(&mut text, sep);
        }
        push_str(&mut text, parts[i].as_str());
        proof {
            let t = views(parts@.take(i + 1));
            assert(t.drop_last() =~= views(parts@.take(i as int)));
            assert(t.last() == parts@[i as int]@);
            if i == 0 {
                assert(t.len() == 1);
            }
        }
        i += 1;
    }
    assert(parts@.take(parts@.len() as int) =~= parts@);
    text
}

/// A string holding the characters of `s`.
pub fn string_of(s: &str) -> (text: String)
    ensures
        text@ == s@,
{
    let mut text = String::new();
    push_str(&mut text, s);
    text
}

/// `s` trimmed, or `None` when that leaves nothing.
pub open spec fn nonblank(s: Seq<char>) -> Option<Seq<char>> {
    if trimmed(s).len() == 0 {
        None
    } else {
        Some(trimmed(s))
    }
}

/// A text trimmed, or `None` when that leaves nothing.
pub fn nonblank_string(s: &str) -> (text: Option<String>)
    ensures
        match (text, nonblank(s@)) {
            (Some(t), Some(expected)) => t@ == expected,
            (None, None) => true,
            _ => false,
        },
{
    let t = trim(s);
    if t.as_str().is_empty() {
        None
    } else {
        Some(t)
    }
}

/// `c` is one of `0`..`9`.
pub open spec fn is_digit(c: char) -> bool {
    '0' <= c && c <= '9'
}

/// The value of a string of decimal digits.
pub open spec fn digits_value(s: Seq<char>) -> nat
    decreases s.len(),
{
    if s.len() == 0 {
        0
    } else {
        digits_value(s.drop_last()) * 10 + ((s.last() as int - 48) as nat)
    }
}

/// The digits part of an unsigned number: without one leading `+`.
pub open spec fn unsigned_digits(s: Seq<char>) -> Seq<char> {
    if s.len() > 0 && s[0] == '+' {
        s.drop_first()
    } else {
        s
    }
}

/// Every character of `d` is a decimal digit.
pub open spec fn all_digits(d: Seq<char>) -> bool {
    forall|i: int| 0 <= i < d.len() ==> is_digit(#[trigger] d[i])
}

/// What `str::parse` gives for an unsigned integer type whose largest value
/// is `max`: an optional `+`, then one or more decimal digits whose value is
/// at most `max`; anything else is refused.
pub open spec fn parsed_unsigned(s: Seq<char>, max: nat) -> Option<nat> {
    let d = unsigned_digits(s);
    if d.len() > 0 && all_digits(d) && digits_value(d) <= max {
        Some(digits_value(d))
    } else {
        None
    }
}

/// A longer run of digits is worth at least as much as its start.
pub proof fn lemma_digits_value_grows(s: Seq<char>, k: int)
    requires
        0 <= k <= s.len(),
        forall|i: int| 0 <= i < s.len() ==> is_digit(#[trigger] s[i]),
    ensures
        digits_value(s.take(k)) <= digits_value(s),
    decreases s.len(),
{
    if k < s.len() {
        assert(s.drop_last().take(k) =~= s.take(k));
        assert forall|i: int| 0 <= i < s.drop_last().len() implies is_digit(#[trigger] s.drop_last()[i]) by {
            assert(s.drop_last()[i] == s[i]);
        }
        lemma_digits_value_grows(s.drop_last(), k);
    } else {
        assert(s.take(k) =~= s);
    }
}

/// Parses an unsigned decimal number no larger than `max`, as `str::parse`
/// does for an unsigned integer type with that largest value.
pub fn parse_unsigned(s: &str, max: u64) -> (value: Option<u64>)
    requires
        max <= u32::MAX,
    ensures
        match (value, parsed_unsigned(s@, max as nat)) {
            (Some(v), Some(expected)) => v == expected,
            (None, None) => true,
            _ => false,
        },
{
    let chars = chars_of(s);
    let n = chars.len();
    let mut start: usize = 0;
    if n > 0 && chars[0] == '+' {
        start = 1;
    }
    let ghost d = unsigned_digits(s@);
    assert(d =~= chars@.skip(start as int));
    if start == n {
        return None;
    }
    let mut value: u64 = 0;
    let mut i: usize = start;
    while i < n
        invariant
            start <= i <= n,
            n == chars@.len(),
            chars@ == s@,
            d == unsigned_digits(s@),
            d == chars@.skip(start as int),
            max <= u32::MAX,
            value <= max,
            value == digits_value(d.take(i - start)),
            forall|q: int| 0 <= q < i - start ==> is_digit(#[trigger] d[q]),
        decreases n - i,
    {
        let c = chars[i];
        assert(c == d[i - start]);
        if !('0' <= c && c <= '9') {
            assert(!is_digit(d[i - start]));
            assert(!all_digits(d));
            return None;
        }
        let digit: u64 = (c as u32 - 48) as u64;
        assert(d.take(i - start + 1).drop_last() =~= d.take(i - start));
        assert(d.take(i - start + 1).last() == c);
        let next = value * 10 + digit;
        assert(digits_value(d.take(i - start + 1)) == next);
        if next > max {
            proof {
                if all_digits(d) {
                    lemma_digits_value_grows(d, i - start + 1);
                }
            }
            return None;
        }
        value = next;
        i += 1;
    }
    assert(d.take(n - start) =~= d);
    Some(value)
}

/// Whether `s` starts with `prefix`.
pub fn starts_with(s: &str, prefix: &str) -> (b: bool)
    ensures
        b == (prefix@.len() <= s@.len() && s@.take(prefix@.len() as int) == prefix@),
{
    let a = chars_of(s);
    let p = chars_of(prefix);
    if p.len() > a.len() {
        return false;
    }
    let mut i: usize = 0;
    while i < p.len()
        invariant
            i <= p@.len(),
            p@.len() <= a@.len(),
            a@ == s@,
            p@ == prefix@,
            forall|q: int| 0 <= q < i ==> a@[q] == p@[q],
        decreases p@.len() - i,
    {
        if a[i] != p[i] {
            assert(s@.take(prefix@.len() as int)[i as int] != prefix@[i as int]);
            return false;
        }
        i += 1;
    }
    assert(s@.take(prefix@.len() as int) =~= prefix@);
    true
}

/// Whether `s` ends with `suffix`.
pub fn ends_with(s: &str, suffix: &str) -> (b: bool)
    ensures
        b == (suffix@.len() <= s@.len() && s@.skip(s@.len() - suffix@.len()) == suffix@),
{
    let a = chars_of(s);
    let p = chars_of(suffix);
    if p.len() > a.len() {
        return false;
    }
    let off = a.len() - p.len();
    let mut i: usize = 0;
    while i < p.len()
        invariant
            i <= p@.len(),
            off + p@.len() == a@.len(),
            a@ == s@,
            p@ == suffix@,
            forall|q: int| 0 <= q < i ==> a@[off + q] == p@[q],
        decreases p@.len() - i,
    {
        assert(off + i < a.len());
        if a[off + i] != p[i] {
            assert(s@.skip(off as int)[i as int] != suffix@[i as int]);
            return false;
        }
        i += 1;
    }
    assert(s@.skip(off as int) =~= suffix@);
    true
}

/// `s` without its first `n` characters.
pub fn drop_chars(s: &str, n: usize) -> (rest: String)
    requires
        n <= s@.len(),
    ensures
        rest@ == s@.skip(n as int),
{
    let a = chars_of(s);
    let r = string_from_chars(a.as_slice(), n, a.len());
    assert(a@.subrange(n as int, a@.len() as int) =~= s@.skip(n as int));
    r
}

/// `s` without its last `n` characters.
pub fn drop_last_chars(s: &str, n: usize) -> (rest: String)
    requires
        n <= s@.len(),
    ensures
        rest@ == s@.take(s@.len() - n),
{
    let a = chars_of(s);
    let r = string_from_chars(a.as_slice(), 0, a.len() - n);
    assert(a@.subrange(0, a@.len() - n) =~= s@.take(s@.len() - n));
    r
}

/// How many characters `s` starts with before its first whitespace.
pub open spec fn token_len(s: Seq<char>) -> nat
    decreases s.len(),
{
    if s.len() == 0 || is_white_space(s[0]) {
        0
    } else {
        1 + token_len(s.drop_first())
    }
}

/// A token runs up to the first whitespace character or the end.
pub proof fn lemma_token_len(s: Seq<char>)
    ensures
        token_len(s) <= s.len(),
        forall|j: int| 0 <= j < token_len(s) ==> !is_white_space(#[trigger] s[j]),
        token_len(s) < s.len() ==> is_white_space(s[token_len(s) as int]),
    decreases s.len(),
{
    if s.len() > 0 && !is_white_space(s[0]) {
        lemma_token_len(s.drop_first());
        assert forall|j: int| 0 <= j < token_len(s) implies !is_white_space(#[trigger] s[j]) by {
            if j > 0 {
                assert(s[j] == s.drop_first()[j - 1]);
            }
        }
        if token_len(s) < s.len() {
            assert(s[token_len(s) as int] == s.drop_first()[token_len(s.drop_first()) as int]);
        }
    }
}

/// The whitespace-separated words of `s`, as `str::split_whitespace`
/// gives them.
pub open spec fn words(s: Seq<char>) -> Seq<Seq<char>>
    decreases s.len(),
{
    if s.len() == 0 {
        Seq::empty()
    } else if is_white_space(s[0]) {
        words(s.drop_first())
    } else {
        let n = token_len(s);
        proof {
            lemma_token_len(s);
        }
        seq![s.take(n as int)] + words(s.skip(n as int))
    }
}

/// The whitespace-separated words of `s`.
pub fn split_whitespace(s: &str) -> (parts: Vec<String>)
    ensures
        views(parts@) == words(s@),
{
    let chars = chars_of(s);
    let n = chars.len();
    let mut parts: Vec<String> = Vec::new();
    let mut i: usize = 0;
    assert(s@.skip(0) =~= s@);
    assert(views(parts@) + words(s@) =~= words(s@));
    while i < n
        invariant
            i <= n,
            n == chars@.len(),
            chars@ == s@,
            words(s@) == views(parts@) + words(s@.skip(i as int)),
        decreases n - i,
    {
        let ghost rest = s@.skip(i as int);
        if char_is_whitespace(chars[i]) {
            assert(rest.drop_first() =~= s@.skip(i + 1));
            i += 1;
        } else {
            proof {
                lemma_token_len(rest);
            }
            let mut end: usize = i;
            while end < n && !char_is_whitespace(chars[end])
                invariant
                    i <= end <= n,
                    n == chars@.len(),
                    chars@ == s@,
                    rest == s@.skip(i as int),
                    forall|j: int| i <= j < end ==> !is_white_space(chars@[j]),
                    token_len(rest) <= rest.len(),
                    forall|j: int| 0 <= j < token_len(rest) ==> !is_white_space(#[trigger] rest[j]),
                    token_len(rest) < rest.len() ==> is_white_space(rest[token_len(rest) as int]),
                decreases n - end,
            {
                end += 1;
            }
            assert(end - i == token_len(rest)) by {
                if end - i < token_len(rest) {
                    assert(rest[end - i] == chars@[end as int]);
                } else if end - i > token_len(rest) {
                    assert(chars@[i + token_len(rest)] == rest[token_len(rest) as int]);
                }
            }
            let word = string_from_chars(chars.as_slice(), i, end);
            let ghost before = parts@;
            parts.push(word);
            proof {
                assert(rest.take(end - i) =~= chars@.subrange(i as int, end as int));
                assert(rest.skip(end - i) =~= s@.skip(end as int));
                assert(views(parts@) =~= views(before).push(word@));
                assert(words(s@) =~= views(parts@) + words(s@.skip(end as int)));
            }
            i = end;
        }
    }
    assert(s@.skip(n as int).len() == 0);
    assert(views(parts@) =~= words(s@));
    parts
}

/// Decimal text is digits worth the number written.
pub proof fn lemma_decimal_digits(n: nat)
    ensures
        decimal(n).len() > 0,
        all_digits(decimal(n)),
        digits_value(decimal(n)) == n,
        decimal(n)[0] != '+',
    decreases n,
{
    if n >= 10 {
        lemma_decimal_digits(n / 10);
        let d = decimal(n);
        assert(d.drop_last() =~= decimal(n / 10));
        assert forall|i: int| 0 <= i < d.len() implies is_digit(#[trigger] d[i]) by {
            if i < d.len() - 1 {
                assert(d[i] == decimal(n / 10)[i]);
            }
        }
        assert(d[0] == decimal(n / 10)[0]);
        assert(d.last() == (48 + n % 10) as char);
        assert((d.last() as int) - 48 == n % 10);
        vstd::arithmetic::div_mod::lemma_fundamental_div_mod(n as int, 10);
        assert(digits_value(d) == digits_value(d.drop_last()) * 10 + ((d.last() as int - 48) as nat));
    } else {
        let d = decimal(n);
        assert(d.last() == (48 + n) as char);
        assert((d.last() as int) - 48 == n);
        assert(d.drop_last() =~= Seq::<char>::empty());
        assert(digits_value(d) == digits_value(d.drop_last()) * 10 + ((d.last() as int - 48) as nat));
    }
}

/// A number written in decimal parses back to itself: the settings shown
/// to the user read back unchanged.
pub proof fn lemma_decimal_parses_back(n: nat, max: nat)
    requires
        n <= max,
    ensures
        parsed_unsigned(decimal(n), max) == Some(n),
{
    lemma_decimal_digits(n);
}

} // verus!
