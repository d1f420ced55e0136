//! Character-level text helpers shared by the configuration, session and
//! admin logic: Unicode whitespace trimming, prefix and separator handling,
//! decimal numerals, the order of strings, and building `String`s from
//! character sequences.
use vstd::prelude::*;

verus! {

/// The characters with the Unicode `White_Space` property, which is what
/// `char::is_whitespace` (and therefore `str::trim`) tests for.
pub open spec fn is_ws(c: char) -> bool {
    ||| ('\u{9}' <= c && c <= '\u{d}')
    ||| c == ' '
    ||| c == '\u{85}'
    ||| c == '\u{a0}'
    ||| c == '\u{1680}'
    ||| ('\u{2000}' <= c && c <= '\u{200a}')
    ||| c == '\u{2028}'
    ||| c == '\u{2029}'
    ||| c == '\u{202f}'
    ||| c == '\u{205f}'
    ||| c == '\u{3000}'
}

/// `s` with its leading whitespace removed.
pub open spec fn trim_start_spec(s: Seq<char>) -> Seq<char>
    decreases s.len(),
{
    if s.len() > 0 && is_ws(s[0]) {
        trim_start_spec(s.drop_first())
    } else {
        s
    }
}

/// `s` with its trailing whitespace removed.
pub open spec fn trim_end_spec(s: Seq<char>) -> Seq<char>
    decreases s.len(),
{
    if s.len() > 0 && is_ws(s.last()) {
        trim_end_spec(s.drop_last())
    } else {
        s
    }
}

/// `s` with leading and trailing whitespace removed, as `str::trim` does.
pub open spec fn trim_spec(s: Seq<char>) -> Seq<char> {
    trim_end_spec(trim_start_spec(s))
}

/// Whether `s` is empty once trimmed.
pub open spec fn is_blank(s: Seq<char>) -> bool {
    trim_spec(s).len() == 0
}

/// Whether `c` has the Unicode `White_Space` property.
pub fn is_whitespace(c: char) -> (r: bool)
    ensures
        r == is_ws(c),
{
    ('\u{9}' <= c && c <= '\u{d}') || c == ' ' || c == '\u{85}' || c == '\u{a0}' || c
        == '\u{1680}' || ('\u{2000}' <= c && c <= '\u{200a}') || c == '\u{2028}' || c
        == '\u{2029}' || c == '\u{202f}' || c == '\u{205f}' || c == '\u{3000}'
}

/// The characters of `s`, in order.
pub fn chars_of(s: &str) -> (v: Vec<char>)
    ensures
        v@ == s@,
{
    let mut v: Vec<char> = Vec::new();
    for c in it: s.chars()
        invariant
            v@ == it.seq().take(it.index() as int),
            it.seq() == s@,
    {
        v.push(c);
    }
    v
}

proof fn lemma_trim_start_step(s: Seq<char>, i: int)
    requires
        0 <= i < s.len(),
        is_ws(s[i]),
    ensures
        trim_start_spec(s.subrange(i, s.len() as int)) == trim_start_spec(
            s.subrange(i + 1, s.len() as int),
        ),
{
    assert(s.subrange(i, s.len() as int).drop_first() =~= s.subrange(i + 1, s.len() as int));
}

proof fn lemma_trim_end_step(s: Seq<char>, j: int)
    requires
        0 < j <= s.len(),
        is_ws(s[j - 1]),
    ensures
        trim_end_spec(s.subrange(0, j)) == trim_end_spec(s.subrange(0, j - 1)),
{
    assert(s.subrange(0, j).drop_last() =~= s.subrange(0, j - 1));
}

/// Index bounds `(start, end)` such that `trim_spec(s) == s[start..end]`.
pub fn trim_bounds(v: &Vec<char>) -> (r: (usize, usize))
    ensures
        r.0 <= r.1 <= v@.len(),
        trim_spec(v@) == v@.subrange(r.0 as int, r.1 as int),
{
    let n = v.len();
    let mut start: usize = 0;
    assert(v@.subrange(0, n as int) =~= v@);
    while start < n && is_whitespace(v[start])
        invariant
            start <= n == v@.len(),
            trim_start_spec(v@) == trim_start_spec(v@.subrange(start as int, n as int)),
        decreases n - start,
    {
        proof {
            lemma_trim_start_step(v@, start as int);
        }
        start = start + 1;
    }
    let ghost rest = v@.subrange(start as int, n as int);
    assert(trim_start_spec(rest) == rest);
    assert(trim_start_spec(v@) == rest);
    let mut end: usize = n;
    while end > start && is_whitespace(v[end - 1])
        invariant
            start <= end <= n == v@.len(),
            rest == v@.subrange(start as int, n as int),
            trim_end_spec(rest) == trim_end_spec(v@.subrange(start as int, end as int)),
        decreases end - start,
    {
        proof {
            let sub = v@.subrange(start as int, end as int);
            lemma_trim_end_step(sub, (end - start) as int);
            assert(sub.subrange(0, (end - start) as int) =~= sub);
            assert(sub.subrange(0, (end - start - 1) as int) =~= v@.subrange(
                start as int,
                end - 1,
            ));
        }
        end = end - 1;
    }
    let ghost fin = v@.subrange(start as int, end as int);
    assert(trim_end_spec(fin) == fin);
    (start, end)
}

/// `s` with leading and trailing Unicode whitespace removed.
pub fn trim(s: &str) -> (r: String)
    ensures
        r@ == trim_spec(s@),
{
    let v = chars_of(s);
    let (start, end) = trim_bounds(&v);
    s.substring_char(start, end).to_owned()
}

/// Whether `s` is empty or made only of whitespace.
pub fn is_blank_str(s: &str) -> (r: bool)
    ensures
        r == is_blank(s@),
{
    let v = chars_of(s);
    let (start, end) = trim_bounds(&v);
    start == end
}

/// The views of a sequence of strings.
pub open spec fn strs_view(v: Seq<String>) -> Seq<Seq<char>> {
    v.map_values(|s: String| s@)
}

/// The view of an optional string.
pub open spec fn opt_view(o: Option<String>) -> Option<Seq<char>> {
    match o {
        Some(s) => Some(s@),
        None => None,
    }
}

/// The view of an optional list of strings.
pub open spec fn opt_strs_view(o: Option<Vec<String>>) -> Option<Seq<Seq<char>>> {
    match o {
        Some(v) => Some(strs_view(v@)),
        None => None,
    }
}

/// An owned copy of `s`.
pub fn string_of(s: &str) -> (r: String)
    ensures
        r@ == s@,
{
    s.to_owned()
}

/// A copy of an optional string.
pub fn clone_opt_string(o: &Option<String>) -> (r: Option<String>)
    ensures
        opt_view(r) == opt_view(*o),
{
    match o {
        Some(s) => Some(s.clone()),
        None => None,
    }
}

/// A copy of a list of strings.
pub fn clone_strings(v: &Vec<String>) -> (r: Vec<String>)
    ensures
        strs_view(r@) == strs_view(v@),
{
    let mut r: Vec<String> = Vec::new();
    for i in 0..v.len()
        invariant
            r@.len() == i,
            forall|j: int| 0 <= j < i ==> r@[j]@ == v@[j]@,
    {
        let c = v[i].clone();
        r.push(c);
    }
    assert(strs_view(r@) =~= strs_view(v@));
    r
}

/// Whether two lists of strings hold the same strings in the same order.
pub fn strings_eq(a: &Vec<String>, b: &Vec<String>) -> (r: bool)
    ensures
        r == (strs_view(a@) == strs_view(b@)),
{
    if a.len() != b.len() {
        assert(strs_view(a@).len() != strs_view(b@).len());
        return false;
    }
    for i in 0..a.len()
        invariant
            a@.len() == b@.len(),
            forall|j: int| 0 <= j < i ==> a@[j]@ == b@[j]@,
    {
        if a[i] != b[i] {
            assert(strs_view(a@)[i as int] != strs_view(b@)[i as int]);
            return false;
        }
    }
    assert(strs_view(a@) =~= strs_view(b@));
    true
}

/// Whether `v` holds a string equal to `s`.
pub fn contains_string(v: &Vec<String>, s: &String) -> (r: bool)
    ensures
        r == strs_view(v@).contains(s@),
{
    for i in 0..v.len()
        invariant
            forall|j: int| 0 <= j < i ==> v@[j]@ != s@,
    {
        if v[i] == *s {
            assert(strs_view(v@)[i as int] == s@);
            return true;
        }
    }
    assert forall|j: int| 0 <= j < strs_view(v@).len() implies strs_view(v@)[j] != s@ by {
        assert(strs_view(v@)[j] == v@[j]@);
    }
    false
}

/// `a` followed by `b`.
pub fn concat2(a: &str, b: &str) -> (r: String)
    ensures
        r@ == a@ + b@,
{
    let mut r = a.to_owned();
    r.append(b);
    r
}

/// `a`, `b` and `c` joined.
pub fn concat3(a: &str, b: &str, c: &str) -> (r: String)
    ensures
        r@ == a@ + b@ + c@,
{
    let mut r = a.to_owned();
    r.append(b);
    r.append(c);
    r
}

/// The leading-whitespace trim of `s` is a suffix of `s` that is empty or
/// starts with a non-whitespace character.
pub proof fn lemma_trim_start_shape(s: Seq<char>)
    ensures
        trim_start_spec(s).len() <= s.len(),
        trim_start_spec(s) == s.subrange(s.len() - trim_start_spec(s).len(), s.len() as int),
        trim_start_spec(s).len() == 0 || !is_ws(trim_start_spec(s)[0]),
    decreases s.len(),
{
    if s.len() > 0 && is_ws(s[0]) {
        lemma_trim_start_shape(s.drop_first());
        let t = trim_start_spec(s.drop_first());
        assert(s.drop_first().subrange(s.len() - 1 - t.len(), s.len() - 1) =~= s.subrange(
            s.len() - t.len(),
            s.len() as int,
        ));
    } else {
        assert(s.subrange(0, s.len() as int) =~= s);
    }
}

/// The trailing-whitespace trim of `s` is a prefix of `s` that is empty or
/// ends with a non-whitespace character.
pub proof fn lemma_trim_end_shape(s: Seq<char>)
    ensures
        trim_end_spec(s).len() <= s.len(),
        trim_end_spec(s) == s.subrange(0, trim_end_spec(s).len() as int),
        trim_end_spec(s).len() == 0 || !is_ws(trim_end_spec(s).last()),
    decreases s.len(),
{
    if s.len() > 0 && is_ws(s.last()) {
        lemma_trim_end_shape(s.drop_last());
        let t = trim_end_spec(s.drop_last());
        assert(s.drop_last().subrange(0, t.len() as int) =~= s.subrange(0, t.len() as int));
    } else {
        assert(s.subrange(0, s.len() as int) =~= s);
    }
}

/// A sequence that does not start or end with whitespace is its own trim.
pub proof fn lemma_trim_fixed(s: Seq<char>)
    requires
        s.len() == 0 || (!is_ws(s[0]) && !is_ws(s.last())),
    ensures
        trim_spec(s) == s,
{
}

/// The trim of `s` is empty or has non-whitespace ends, and trimming again
/// changes nothing.
pub proof fn lemma_trim_shape(s: Seq<char>)
    ensures
        trim_spec(s).len() == 0 || (!is_ws(trim_spec(s)[0]) && !is_ws(trim_spec(s).last())),
        trim_spec(trim_spec(s)) == trim_spec(s),
        is_blank(trim_spec(s)) == is_blank(s),
{
    let a = trim_start_spec(s);
    lemma_trim_start_shape(s);
    lemma_trim_end_shape(a);
    let b = trim_end_spec(a);
    if b.len() > 0 {
        assert(b[0] == a[0]);
    }
    lemma_trim_fixed(b);
}

/// A sequence whose characters are all non-whitespace is not blank.
pub proof fn lemma_not_blank_if_no_ws(s: Seq<char>)
    requires
        s.len() > 0,
        forall|i: int| 0 <= i < s.len() ==> !is_ws(#[trigger] s[i]),
    ensures
        !is_blank(s),
        trim_spec(s) == s,
{
    lemma_trim_fixed(s);
}

/// Whether `p` is a prefix of `s`.
pub open spec fn has_prefix(s: Seq<char>, p: Seq<char>) -> bool {
    p.len() <= s.len() && s.take(p.len() as int) == p
}

/// Whether `c` occurs in `s`.
pub open spec fn has_char(s: Seq<char>, c: char) -> bool {
    exists|i: int| 0 <= i < s.len() && s[i] == c
}

/// The position of the first `c` in `v` at or after `from`, or `v.len()`.
fn find_char_from(v: &Vec<char>, c: char, from: usize) -> (r: usize)
    requires
        from <= v@.len(),
    ensures
        from <= r <= v@.len(),
        r < v@.len() ==> v@[r as int] == c,
        forall|j: int| from <= j < r ==> v@[j] != c,
{
    let mut i = from;
    while i < v.len()
        invariant
            from <= i <= v@.len(),
            forall|j: int| from <= j < i ==> v@[j] != c,
        decreases v@.len() - i,
    {
        if v[i] == c {
            return i;
        }
        i = i + 1;
    }
    i
}

/// The position of the last `c` in `v`, if any.
fn rfind_char(v: &Vec<char>, c: char) -> (r: Option<usize>)
    ensures
        match r {
            Some(i) => i < v@.len() && v@[i as int] == c && forall|j: int|
                i < j < v@.len() ==> v@[j] != c,
            None => forall|j: int| 0 <= j < v@.len() ==> v@[j] != c,
        },
{
    let mut i = v.len();
    while i > 0
        invariant
            i <= v@.len(),
            forall|j: int| i <= j < v@.len() ==> v@[j] != c,
        decreases i,
    {
        if v[i - 1] == c {
            return Some(i - 1);
        }
        i = i - 1;
    }
    None
}

/// The rest of `s` after the prefix `prefix`, if `s` starts with it.
pub fn strip_prefix(s: &str, prefix: &str) -> (r: Option<String>)
    ensures
        match r {
            Some(rest) => s@ == prefix@ + rest@,
            None => !has_prefix(s@, prefix@),
        },
{
    let v = chars_of(s);
    let p = chars_of(prefix);
    if p.len() > v.len() {
        return None;
    }
    for i in 0..p.len()
        invariant
            p@.len() <= v@.len(),
            v@ == s@,
            p@ == prefix@,
            forall|j: int| 0 <= j < i ==> v@[j] == p@[j],
    {
        if v[i] != p[i] {
            assert(s@.take(prefix@.len() as int)[i as int] != prefix@[i as int]);
            return None;
        }
    }
    let rest = s.substring_char(p.len(), v.len()).to_owned();
    assert(s@ =~= prefix@ + rest@);
    Some(rest)
}

/// Splits `s` around the first occurrence of `sep`.
pub fn split_once(s: &str, sep: char) -> (r: Option<(String, String)>)
    ensures
        match r {
            Some((a, b)) => s@ == a@ + seq![sep] + b@ && !has_char(a@, sep),
            None => !has_char(s@, sep),
        },
{
    let v = chars_of(s);
    let i = find_char_from(&v, sep, 0);
    if i == v.len() {
        return None;
    }
    let a = s.substring_char(0, i).to_owned();
    let b = s.substring_char(i + 1, v.len()).to_owned();
    assert(s@ =~= a@ + seq![sep] + b@);
    assert(!has_char(a@, sep)) by {
        assert forall|j: int| 0 <= j < a@.len() implies a@[j] != sep by {
            assert(a@[j] == v@[j]);
        }
    }
    Some((a, b))
}

/// Splits `s` around the last occurrence of `sep`.
pub fn rsplit_once(s: &str, sep: char) -> (r: Option<(String, String)>)
    ensures
        match r {
            Some((a, b)) => s@ == a@ + seq![sep] + b@ && !has_char(b@, sep),
            None => !has_char(s@, sep),
        },
{
    let v = chars_of(s);
    match rfind_char(&v, sep) {
        None => None,
        Some(i) => {
            assert(i < v.len());
            let a = s.substring_char(0, i).to_owned();
            let b = s.substring_char(i + 1, v.len()).to_owned();
            assert(s@ =~= a@ + seq![sep] + b@);
            assert(!has_char(b@, sep)) by {
                assert forall|j: int| 0 <= j < b@.len() implies b@[j] != sep by {
                    assert(b@[j] == v@[i + 1 + j]);
                }
            }
            Some((a, b))
        },
    }
}

/// ASCII lower case of one character, as `char::to_ascii_lowercase` maps it.
pub open spec fn ascii_lower(c: char) -> char {
    if 'A' <= c && c <= 'Z' {
        (((c as u8) + 32) as u8) as char
    } else {
        c
    }
}

pub fn to_ascii_lower(c: char) -> (r: char)
    ensures
        r == ascii_lower(c),
{
    if 'A' <= c && c <= 'Z' {
        ((c as u8) + 32) as char
    } else {
        c
    }
}

/// Whether `a` and `b` are equal up to ASCII case, as `str::eq_ignore_ascii_case` decides.
pub open spec fn eq_ignore_ascii_case_spec(a: Seq<char>, b: Seq<char>) -> bool {
    a.len() == b.len() && forall|i: int| 0 <= i < a.len() ==> ascii_lower(a[i]) == ascii_lower(b[i])
}

pub fn eq_ignore_ascii_case(a: &str, b: &str) -> (r: bool)
    ensures
        r == eq_ignore_ascii_case_spec(a@, b@),
{
    let va = chars_of(a);
    let vb = chars_of(b);
    if va.len() != vb.len() {
        return false;
    }
    for i in 0..va.len()
        invariant
            va@ == a@,
            vb@ == b@,
            va@.len() == vb@.len(),
            forall|j: int| 0 <= j < i ==> ascii_lower(va@[j]) == ascii_lower(vb@[j]),
    {
        if to_ascii_lower(va[i]) != to_ascii_lower(vb[i]) {
            return false;
        }
    }
    true
}

/// Appends one character, by `String::push`.
#[verifier::external_body]
pub(crate) fn push_char(s: &mut String, c: char)
    ensures
        final(s)@ == old(s)@.push(c),
{
    s.push(c);
}

/// The decimal digit character for `d` (0 to 9).
pub open spec fn digit_char(d: int) -> char {
    if d == 0 {
        '0'
    } else if d == 1 {
        '1'
    } else if d == 2 {
        '2'
    } else if d == 3 {
        '3'
    } else if d == 4 {
        '4'
    } else if d == 5 {
        '5'
    } else if d == 6 {
        '6'
    } else if d == 7 {
        '7'
    } else if d == 8 {
        '8'
    } else {
        '9'
    }
}

/// The decimal numeral of `n`, without sign or leading zeros.
pub open spec fn decimal_spec(n: nat) -> Seq<char>
    decreases n,
{
    if n < 10 {
        seq![digit_char(n as int)]
    } else {
        decimal_spec(n / 10).push(digit_char((n % 10) as int))
    }
}

/// A decimal numeral is a non-empty run of digits whose value is the number
/// it was written for; so distinct numbers have distinct numerals.
pub proof fn lemma_decimal_value(n: nat)
    ensures
        decimal_spec(n).len() >= 1,
        all_digits(decimal_spec(n)),
        digits_value(decimal_spec(n)) == n,
    decreases n,
{
    let d = decimal_spec(n);
    if n < 10 {
        assert(d.drop_last() =~= Seq::<char>::empty());
        assert(digits_value(d.drop_last()) == 0);
    } else {
        lemma_decimal_value(n / 10);
        assert(d.drop_last() =~= decimal_spec(n / 10));
        assert forall|i: int| 0 <= i < d.len() implies '0' <= #[trigger] d[i] && d[i] <= '9' by {
            if i < d.len() - 1 {
                assert(d[i] == decimal_spec(n / 10)[i]);
            }
        }
    }
}

/// Equal numerals stand for equal numbers.
pub proof fn lemma_decimal_injective(a: nat, b: nat)
    requires
        decimal_spec(a) == decimal_spec(b),
    ensures
        a == b,
{
    lemma_decimal_value(a);
    lemma_decimal_value(b);
}

fn digit(d: u64) -> (c: char)
    requires
        d < 10,
    ensures
        c == digit_char(d as int),
{
    if d == 0 {
        '0'
    } else if d == 1 {
        '1'
    } else if d == 2 {
        '2'
    } else if d == 3 {
        '3'
    } else if d == 4 {
        '4'
    } else if d == 5 {
        '5'
    } else if d == 6 {
        '6'
    } else if d == 7 {
        '7'
    } else if d == 8 {
        '8'
    } else {
        '9'
    }
}

/// The decimal numeral of `n`, as `u64`'s `Display` writes it.
pub fn u64_to_decimal(n: u64) -> (r: String)
    ensures
        r@ == decimal_spec(n as nat),
    decreases n,
{
    if n < 10 {
        let mut s = String::new();
        push_char(&mut s, digit(n));
        assert(s@ =~= seq![digit_char(n as int)]);
        s
    } else {
        let mut s = u64_to_decimal(n / 10);
        push_char(&mut s, digit(n % 10));
        s
    }
}

/// The position of the first `c` in `s`.
pub open spec fn index_of(s: Seq<char>, c: char) -> Option<nat>
    decreases s.len(),
{
    if s.len() == 0 {
        None
    } else if s[0] == c {
        Some(0)
    } else {
        match index_of(s.drop_first(), c) {
            Some(i) => Some(i + 1),
            None => None,
        }
    }
}

/// `s` split around its first `c`: the part before and the part after.
pub open spec fn split_first(s: Seq<char>, c: char) -> Option<(Seq<char>, Seq<char>)> {
    match index_of(s, c) {
        Some(i) => Some((s.take(i as int), s.skip(i + 1int))),
        None => None,
    }
}

/// `index_of` finds the first occurrence, and only occurrences.
pub proof fn lemma_index_of(s: Seq<char>, c: char)
    ensures
        match index_of(s, c) {
            Some(i) => i < s.len() && s[i as int] == c && forall|j: int| 0 <= j < i ==> s[j] != c,
            None => forall|j: int| 0 <= j < s.len() ==> s[j] != c,
        },
    decreases s.len(),
{
    if s.len() > 0 && s[0] != c {
        lemma_index_of(s.drop_first(), c);
        match index_of(s.drop_first(), c) {
            Some(i) => {
                assert forall|j: int| 0 <= j < i + 1 implies s[j] != c by {
                    if j > 0 {
                        assert(s[j] == s.drop_first()[j - 1]);
                    }
                }
            },
            None => {
                assert forall|j: int| 0 <= j < s.len() implies s[j] != c by {
                    if j > 0 {
                        assert(s[j] == s.drop_first()[j - 1]);
                    }
                }
            },
        }
    }
}

/// A decomposition around a first occurrence is the one `split_first` gives.
pub proof fn lemma_split_first_is(s: Seq<char>, c: char, a: Seq<char>, b: Seq<char>)
    requires
        s == a + seq![c] + b,
        !has_char(a, c),
    ensures
        split_first(s, c) == Some((a, b)),
{
    lemma_index_of(s, c);
    assert(s[a.len() as int] == c);
    match index_of(s, c) {
        Some(i) => {
            if i < a.len() {
                assert(a[i as int] == s[i as int]);
            }
            assert(i == a.len());
            assert(s.take(i as int) =~= a);
            assert(s.skip(i + 1int) =~= b);
        },
        None => {},
    }
}

/// Without an occurrence, `split_first` finds nothing.
pub proof fn lemma_split_first_none(s: Seq<char>, c: char)
    requires
        !has_char(s, c),
    ensures
        split_first(s, c) is None,
{
    lemma_index_of(s, c);
    if let Some(i) = index_of(s, c) {
        assert(s[i as int] == c);
    }
}

/// Splits `s` around its first `sep`, as [`split_first`] states it.
pub fn split_first_exec(s: &str, sep: char) -> (r: Option<(String, String)>)
    ensures
        match r {
            Some((a, b)) => split_first(s@, sep) == Some((a@, b@)) && s@ == a@ + seq![sep] + b@,
            None => split_first(s@, sep) is None,
        },
{
    match split_once(s, sep) {
        Some((a, b)) => {
            proof {
                lemma_split_first_is(s@, sep, a@, b@);
            }
            Some((a, b))
        },
        None => {
            proof {
                lemma_split_first_none(s@, sep);
            }
            None
        },
    }
}

/// The value of a string of ASCII digits.
pub open spec fn digits_value(d: Seq<char>) -> nat
    decreases d.len(),
{
    if d.len() == 0 {
        0
    } else {
        digits_value(d.drop_last()) * 10 + ((d.last() as u32) - ('0' as u32)) as nat
    }
}

/// Whether every character of `d` is an ASCII digit.
pub open spec fn all_digits(d: Seq<char>) -> bool {
    forall|i: int| 0 <= i < d.len() ==> '0' <= #[trigger] d[i] && d[i] <= '9'
}

/// What `str::parse::<u16>` yields: an optional `+` sign and at least one
/// ASCII digit, with a value that fits in 16 bits.
pub open spec fn parse_u16_spec(s: Seq<char>) -> Option<u16> {
    parse_u16_spec_of(
        if s.len() > 0 && s[0] == '+' {
            s.drop_first()
        } else {
            s
        },
    )
}

proof fn lemma_digits_value_grows(d: Seq<char>, k: int)
    requires
        0 <= k <= d.len(),
        all_digits(d),
    ensures
        digits_value(d.take(k)) <= digits_value(d),
    decreases d.len() - k,
{
    if k < d.len() {
        lemma_digits_value_grows(d, k + 1);
        assert(d.take(k + 1).drop_last() =~= d.take(k));
    } else {
        assert(d.take(k) =~= d);
    }
}

/// Parses a port number the way `str::parse::<u16>` does.
pub fn parse_u16(s: &str) -> (r: Option<u16>)
    ensures
        r == parse_u16_spec(s@),
{
    let v = chars_of(s);
    let digits = if v.len() > 0 && v[0] == '+' {
        s.substring_char(1, v.len())
    } else {
        s.substring_char(0, v.len())
    };
    assert(s@.subrange(0, s@.len() as int) =~= s@);
    assert(s@.len() > 0 ==> s@.subrange(1, s@.len() as int) =~= s@.drop_first());
    let d = chars_of(digits);
    digits_to_u16(&d)
}

fn digits_to_u16(d: &Vec<char>) -> (r: Option<u16>)
    ensures
        r == parse_u16_spec_of(d@),
{
    if d.len() == 0 {
        return None;
    }
    let mut value: u32 = 0;
    let mut k: usize = 0;
    assert(d@.take(0) =~= Seq::<char>::empty());
    while k < d.len()
        invariant
            k <= d@.len(),
            value as nat == digits_value(d@.take(k as int)),
            value <= 65535,
            all_digits(d@.take(k as int)),
        decreases d@.len() - k,
    {
        let c = d[k];
        if c < '0' || c > '9' {
            assert(!all_digits(d@)) by {
                assert(d@[k as int] == c);
            }
            return None;
        }
        proof {
            assert(d@.take(k + 1).drop_last() =~= d@.take(k as int));
            assert(d@.take(k + 1).last() == c);
            assert forall|j: int| 0 <= j < k + 1 implies '0' <= #[trigger] d@.take(k + 1)[j]
                && d@.take(k + 1)[j] <= '9' by {
                if j < k {
                    assert(d@.take(k + 1)[j] == d@.take(k as int)[j]);
                }
            }
        }
        let next = value * 10 + ((c as u32) - ('0' as u32));
        if next > 65535 {
            proof {
                if all_digits(d@) {
                    lemma_digits_value_grows(d@, k + 1);
                }
            }
            return None;
        }
        value = next;
        k = k + 1;
    }
    assert(d@.take(k as int) =~= d@);
    Some(value as u16)
}

/// [`parse_u16_spec`] on the digits after an optional sign.
pub open spec fn parse_u16_spec_of(d: Seq<char>) -> Option<u16> {
    if d.len() == 0 || !all_digits(d) || digits_value(d) > 65535 {
        None
    } else {
        Some(digits_value(d) as u16)
    }
}

/// The position of the last `c` in `s`.
pub open spec fn last_index_of(s: Seq<char>, c: char) -> Option<nat>
    decreases s.len(),
{
    if s.len() == 0 {
        None
    } else if s.last() == c {
        Some((s.len() - 1) as nat)
    } else {
        last_index_of(s.drop_last(), c)
    }
}

/// `s` split around its last `c`.
pub open spec fn split_last(s: Seq<char>, c: char) -> Option<(Seq<char>, Seq<char>)> {
    match last_index_of(s, c) {
        Some(i) => Some((s.take(i as int), s.skip(i + 1int))),
        None => None,
    }
}

pub proof fn lemma_last_index_of(s: Seq<char>, c: char)
    ensures
        match last_index_of(s, c) {
            Some(i) => i < s.len() && s[i as int] == c && forall|j: int| i < j < s.len() ==> s[j] != c,
            None => forall|j: int| 0 <= j < s.len() ==> s[j] != c,
        },
    decreases s.len(),
{
    if s.len() > 0 && s.last() != c {
        lemma_last_index_of(s.drop_last(), c);
        match last_index_of(s.drop_last(), c) {
            Some(i) => {
                assert forall|j: int| i < j < s.len() implies s[j] != c by {
                    if j < s.len() - 1 {
                        assert(s[j] == s.drop_last()[j]);
                    }
                }
            },
            None => {
                assert forall|j: int| 0 <= j < s.len() implies s[j] != c by {
                    if j < s.len() - 1 {
                        assert(s[j] == s.drop_last()[j]);
                    }
                }
            },
        }
    }
}

/// Splits `s` around its last `sep`, as [`split_last`] states it.
pub fn split_last_exec(s: &str, sep: char) -> (r: Option<(String, String)>)
    ensures
        match r {
            Some((a, b)) => split_last(s@, sep) == Some((a@, b@)),
            None => split_last(s@, sep) is None,
        },
{
    let r = rsplit_once(s, sep);
    proof {
        lemma_last_index_of(s@, sep);
        match &r {
            Some((a, b)) => {
                let i = a@.len();
                assert(s@[i as int] == sep);
                match last_index_of(s@, sep) {
                    Some(k) => {
                        if k > i {
                            assert(b@[k - i - 1] == s@[k as int]);
                        }
                        if k < i {
                            assert(s@[i as int] == sep);
                        }
                        assert(k == i);
                        assert(s@.take(i as int) =~= a@);
                        assert(s@.skip(i + 1int) =~= b@);
                    },
                    None => {},
                }
            },
            None => {
                if let Some(k) = last_index_of(s@, sep) {
                    assert(s@[k as int] == sep);
                }
            },
        }
    }
    r
}

/// Whether `sep` occurs in `s` at position `j`.
pub open spec fn occurs_at(s: Seq<char>, sep: Seq<char>, j: int) -> bool {
    0 <= j && j + sep.len() <= s.len() && s.subrange(j, j + sep.len()) == sep
}

/// The first position at or after `from` where `sep` occurs in `s`.
pub open spec fn find_from(s: Seq<char>, sep: Seq<char>, from: nat) -> Option<nat>
    decreases s.len() + 1 - from,
{
    if from + sep.len() > s.len() {
        None
    } else if occurs_at(s, sep, from as int) {
        Some(from)
    } else {
        find_from(s, sep, from + 1)
    }
}

/// `s` split around the first occurrence of the text `sep`.
pub open spec fn split_first_str(s: Seq<char>, sep: Seq<char>) -> Option<(Seq<char>, Seq<char>)> {
    match find_from(s, sep, 0) {
        Some(i) => Some((s.take(i as int), s.skip((i + sep.len()) as int))),
        None => None,
    }
}

fn occurs_at_exec(v: &Vec<char>, p: &Vec<char>, j: usize) -> (r: bool)
    requires
        j + p@.len() <= v@.len(),
    ensures
        r == occurs_at(v@, p@, j as int),
{
    let n = v.len();
    for k in 0..p.len()
        invariant
            n == v@.len(),
            j + p@.len() <= v@.len(),
            forall|m: int| 0 <= m < k ==> v@[j + m] == p@[m],
    {
        assert(j + k < n);
        if v[j + k] != p[k] {
            assert(v@.subrange(j as int, j + p@.len())[k as int] != p@[k as int]);
            return false;
        }
    }
    assert(v@.subrange(j as int, j + p@.len()) =~= p@);
    true
}

/// Splits `s` around the first occurrence of the text `sep`.
pub fn split_once_str(s: &str, sep: &str) -> (r: Option<(String, String)>)
    ensures
        match r {
            Some((a, b)) => split_first_str(s@, sep@) == Some((a@, b@)),
            None => split_first_str(s@, sep@) is None,
        },
{
    let v = chars_of(s);
    let p = chars_of(sep);
    if p.len() > v.len() {
        return None;
    }
    let n = v.len();
    let limit = n - p.len();
    let mut j: usize = 0;
    loop
        invariant
            n == v@.len(),
            v@ == s@,
            p@ == sep@,
            limit == v@.len() - p@.len(),
            j <= limit,
            find_from(s@, sep@, 0) == find_from(s@, sep@, j as nat),
        decreases limit - j,
    {
        if occurs_at_exec(&v, &p, j) {
            let a = s.substring_char(0, j).to_owned();
            let b = s.substring_char(j + p.len(), v.len()).to_owned();
            assert(a@ =~= s@.take(j as int));
            assert(b@ =~= s@.skip(j + sep@.len()));
            return Some((a, b));
        }
        if j == limit {
            assert(find_from(s@, sep@, (j + 1) as nat) is None);
            return None;
        }
        j = j + 1;
    }
}

/// The position of the first of the characters `/`, `?` and `#` in `s`, or
/// its length.
pub open spec fn authority_end(s: Seq<char>) -> nat
    decreases s.len(),
{
    if s.len() == 0 {
        0
    } else if s[0] == '/' || s[0] == '?' || s[0] == '#' {
        0
    } else {
        authority_end(s.drop_first()) + 1
    }
}

proof fn lemma_authority_end(s: Seq<char>, i: int)
    requires
        0 <= i <= s.len(),
        forall|j: int| 0 <= j < i ==> !(s[j] == '/' || s[j] == '?' || s[j] == '#'),
        i == s.len() || s[i] == '/' || s[i] == '?' || s[i] == '#',
    ensures
        authority_end(s) == i,
    decreases i,
{
    if i > 0 {
        assert forall|j: int| 0 <= j < i - 1 implies !(s.drop_first()[j] == '/' || s.drop_first()[j]
            == '?' || s.drop_first()[j] == '#') by {
            assert(s.drop_first()[j] == s[j + 1]);
        }
        assert(!(s[0] == '/' || s[0] == '?' || s[0] == '#'));
        lemma_authority_end(s.drop_first(), i - 1);
    }
}

/// The part of `s` before the first `/`, `?` or `#` (the first field of
/// `s.split(['/', '?', '#'])`).
pub fn authority_part(s: &str) -> (r: String)
    ensures
        r@ == s@.take(authority_end(s@) as int),
{
    let v = chars_of(s);
    let mut i: usize = 0;
    while i < v.len() && !(v[i] == '/' || v[i] == '?' || v[i] == '#')
        invariant
            i <= v@.len(),
            v@ == s@,
            forall|j: int| 0 <= j < i ==> !(s@[j] == '/' || s@[j] == '?' || s@[j] == '#'),
        decreases v@.len() - i,
    {
        i = i + 1;
    }
    proof {
        lemma_authority_end(s@, i as int);
    }
    let r = s.substring_char(0, i).to_owned();
    assert(r@ =~= s@.take(i as int));
    r
}

/// The order of `String`: lexicographic by characters, which is the byte
/// order of their UTF-8 encodings.
pub open spec fn str_lt(a: Seq<char>, b: Seq<char>) -> bool
    decreases a.len(),
{
    if a.len() == 0 {
        b.len() > 0
    } else if b.len() == 0 {
        false
    } else if a[0] != b[0] {
        a[0] < b[0]
    } else {
        str_lt(a.drop_first(), b.drop_first())
    }
}

/// `str_lt` is a strict total order.
pub proof fn lemma_str_lt_order(a: Seq<char>, b: Seq<char>, c: Seq<char>)
    ensures
        !str_lt(a, a),
        str_lt(a, b) ==> !str_lt(b, a),
        str_lt(a, b) && str_lt(b, c) ==> str_lt(a, c),
        a != b ==> str_lt(a, b) || str_lt(b, a),
    decreases a.len(),
{
    if a.len() > 0 && b.len() > 0 && c.len() > 0 {
        lemma_str_lt_order(a.drop_first(), b.drop_first(), c.drop_first());
    }
    if a.len() > 0 && b.len() > 0 {
        lemma_str_lt_order(a.drop_first(), b.drop_first(), b.drop_first());
        if a != b && a[0] == b[0] {
            assert(a.drop_first() != b.drop_first()) by {
                if a.drop_first() == b.drop_first() {
                    assert(a =~= seq![a[0]] + a.drop_first());
                    assert(b =~= seq![b[0]] + b.drop_first());
                }
            }
        }
    }
    if a.len() > 0 {
        lemma_str_lt_order(a.drop_first(), a.drop_first(), a.drop_first());
    }
    if a.len() == 0 && b.len() == 0 {
        assert(a =~= b);
    }
}

/// Whether `a` sorts before `b` as `String`s do.
pub fn str_less(a: &str, b: &str) -> (r: bool)
    ensures
        r == str_lt(a@, b@),
{
    let va = chars_of(a);
    let vb = chars_of(b);
    let mut i: usize = 0;
    proof {
        assert(a@.skip(0) =~= a@);
        assert(b@.skip(0) =~= b@);
    }
    while i < va.len() && i < vb.len()
        invariant
            i <= va@.len(),
            i <= vb@.len(),
            va@ == a@,
            vb@ == b@,
            str_lt(a@, b@) == str_lt(a@.skip(i as int), b@.skip(i as int)),
        decreases va@.len() - i,
    {
        proof {
            assert(a@.skip(i as int)[0] == a@[i as int]);
            assert(b@.skip(i as int)[0] == b@[i as int]);
        }
        if va[i] != vb[i] {
            return va[i] < vb[i];
        }
        proof {
            assert(a@.skip(i as int).drop_first() =~= a@.skip(i + 1int));
            assert(b@.skip(i as int).drop_first() =~= b@.skip(i + 1int));
        }
        i = i + 1;
    }
    i == va.len() && i < vb.len()
}

} // verus!
