//! Small text operations the interface needs.
use vstd::prelude::*;
use vstd::string::*;

verus! {

/// `p` occurs in `s` as a contiguous run of characters.
pub open spec fn has_text(s: Seq<char>, p: Seq<char>) -> bool {
    exists|i: int| 0 <= i && i + p.len() <= s.len() && #[trigger] s.subrange(i, i + p.len()) == p
}

/// The decimal digit for `d` (0..9).
pub open spec fn digit(d: int) -> char {
    seq!['0', '1', '2', '3', '4', '5', '6', '7', '8', '9'][d]
}

/// `n` written in decimal, without leading zeros.
pub open spec fn decimal_text(n: nat) -> Seq<char>
    decreases n,
{
    if n < 10 {
        seq![digit(n as int)]
    } else {
        decimal_text(n / 10).push(digit((n % 10) as int))
    }
}

/// Whether two string slices hold the same characters.
pub fn str_eq(a: &str, b: &str) -> (r: bool)
    ensures
        r == (a@ == b@),
{
    let n = a.unicode_len();
    if n != b.unicode_len() {
        return false;
    }
    let mut i: usize = 0;
    while i < n
        invariant
            n == a@.len(),
            n == b@.len(),
            i <= n,
            forall|j: int| 0 <= j < i ==> a@[j] == b@[j],
        decreases n - i,
    {
        if a.get_char(i) != b.get_char(i) {
            return false;
        }
        i = i + 1;
    }
    assert(a@ =~= b@);
    true
}

/// `String::push` of std: appends one character.
#[verifier::external_body]
pub(crate) fn string_push(s: &mut String, c: char)
    ensures
        final(s)@ == old(s)@.push(c),
{
    s.push(c)
}

/// `String::pop` of std: removes the last character and returns it, or returns `None`
/// when the string is empty.
#[verifier::external_body]
pub(crate) fn string_pop(s: &mut String) -> (r: Option<char>)
    ensures
        old(s)@.len() == 0 ==> r is None && final(s)@ == old(s)@,
        old(s)@.len() > 0 ==> r == Some(old(s)@.last()) && final(s)@ == old(s)@.drop_last(),
{
    s.pop()
}

/// What `str::to_uppercase` of std makes of a text (Unicode upper case, which does not
/// depend on the locale).
pub uninterp spec fn uppercase(s: Seq<char>) -> Seq<char>;

/// `str::to_uppercase` of std. Its result is named, not spelled out: Unicode case
/// mapping takes tables to state.
#[verifier::external_body]
pub(crate) fn to_upper(s: &str) -> (r: String)
    ensures
        r@ == uppercase(s@),
{
    s.to_uppercase()
}

/// The characters of `s`, in order.
pub fn chars_of(s: &str) -> (r: Vec<char>)
    ensures
        r@ == s@,
{
    let n = s.unicode_len();
    let mut r: Vec<char> = Vec::new();
    let mut i: usize = 0;
    while i < n
        invariant
            n == s@.len(),
            i <= n,
            r@ == s@.take(i as int),
        decreases n - i,
    {
        r.push(s.get_char(i));
        i = i + 1;
        assert(r@ =~= s@.take(i as int));
    }
    assert(s@.take(n as int) =~= s@);
    r
}

/// Whether `p` occurs in `s`.
pub fn str_has(s: &str, p: &str) -> (r: bool)
    ensures
        r == has_text(s@, p@),
{
    let cs = chars_of(s);
    let ps = chars_of(p);
    let n = cs.len();
    let m = ps.len();
    if m > n {
        assert(!has_text(s@, p@));
        return false;
    }
    let mut i: usize = 0;
    while i <= n - m
        invariant
            m <= n,
            n == s@.len(),
            m == p@.len(),
            cs@ == s@,
            ps@ == p@,
            i <= n - m + 1,
            forall|j: int| 0 <= j < i ==> #[trigger] s@.subrange(j, j + m) != p@,
        decreases n - m + 1 - i,
    {
        let mut k: usize = 0;
        let mut same = true;
        while k < m
            invariant
                i + m <= n,
                n == s@.len(),
                m == p@.len(),
                cs@ == s@,
                ps@ == p@,
                k <= m,
                same == forall|t: int| 0 <= t < k ==> s@[i + t] == p@[t],
            decreases m - k,
        {
            if cs[i + k] != ps[k] {
                same = false;
            }
            k = k + 1;
        }
        if same {
            assert(s@.subrange(i as int, i + m) =~= p@);
            return true;
        }
        assert(s@.subrange(i as int, i + m)[k as int - 1] != p@[k as int - 1] || exists|t: int|
            0 <= t < m && s@[i + t] != p@[t]);
        assert(s@.subrange(i as int, i + m) != p@);
        i = i + 1;
    }
    assert forall|j: int| 0 <= j && j + p@.len() <= s@.len() implies #[trigger] s@.subrange(
        j,
        j + p@.len(),
    ) != p@ by {
        assert(j < i);
    }
    false
}

/// Appends `n` in decimal to `s`.
pub fn push_decimal(s: &mut String, n: u32)
    ensures
        final(s)@ == old(s)@ + decimal_text(n as nat),
    decreases n,
{
    let digits = ['0', '1', '2', '3', '4', '5', '6', '7', '8', '9'];
    if n >= 10 {
        push_decimal(s, n / 10);
    }
    let d = (n % 10) as usize;
    string_push(s, digits[d]);
    assert(digits@[d as int] == digit(d as int));
    assert(s@ =~= old(s)@ + decimal_text(n as nat));
}

/// Appends `n` in decimal to `s`.
pub fn push_decimal_usize(s: &mut String, n: usize)
    ensures
        final(s)@ == old(s)@ + decimal_text(n as nat),
    decreases n,
{
    let digits = ['0', '1', '2', '3', '4', '5', '6', '7', '8', '9'];
    if n >= 10 {
        push_decimal_usize(s, n / 10);
    }
    let d = n % 10;
    string_push(s, digits[d]);
    assert(digits@[d as int] == digit(d as int));
    assert(s@ =~= old(s)@ + decimal_text(n as nat));
}

/// `n` in decimal.
pub fn decimal_usize(n: usize) -> (r: String)
    ensures
        r@ == decimal_text(n as nat),
{
    let mut s = String::new();
    push_decimal_usize(&mut s, n);
    assert(s@ =~= decimal_text(n as nat));
    s
}

/// `n` in decimal.
pub fn decimal(n: u32) -> (r: String)
    ensures
        r@ == decimal_text(n as nat),
{
    let mut s = String::new();
    push_decimal(&mut s, n);
    assert(s@ =~= decimal_text(n as nat));
    s
}


/// The characters with the Unicode White_Space property: tab, line feed, vertical tab,
/// form feed, carriage return, space, next line, no-break space, ogham space mark, the
/// spaces from en quad to hair space, line separator, paragraph separator, narrow
/// no-break space, medium mathematical space and ideographic space.
pub open spec fn is_white(c: char) -> bool {
    ||| '\u{9}' <= c <= '\u{d}'
    ||| c == ' '
    ||| c == '\u{85}'
    ||| c == '\u{a0}'
    ||| c == '\u{1680}'
    ||| '\u{2000}' <= c <= '\u{200a}'
    ||| c == '\u{2028}'
    ||| c == '\u{2029}'
    ||| c == '\u{202f}'
    ||| c == '\u{205f}'
    ||| c == '\u{3000}'
}

/// Whether the character has the Unicode White_Space property (as `char::is_whitespace`
/// of std tells).
pub(crate) fn char_is_whitespace(c: char) -> (r: bool)
    ensures
        r == is_white(c),
{
    ('\u{9}' <= c && c <= '\u{d}') || c == ' ' || c == '\u{85}' || c == '\u{a0}' || c
        == '\u{1680}' || ('\u{2000}' <= c && c <= '\u{200a}') || c == '\u{2028}' || c
        == '\u{2029}' || c == '\u{202f}' || c == '\u{205f}' || c == '\u{3000}'
}

/// What `str::to_lowercase` of std makes of a text (Unicode lower case, which does not
/// depend on the locale).
pub uninterp spec fn lowercase(s: Seq<char>) -> Seq<char>;

/// `str::to_lowercase` of std. Its result is named, not spelled out: Unicode case
/// mapping takes tables to state.
#[verifier::external_body]
pub(crate) fn to_lower(s: &str) -> (r: String)
    ensures
        r@ == lowercase(s@),
{
    s.to_lowercase()
}

/// `s` without its leading whitespace.
pub open spec fn trim_start_text(s: Seq<char>) -> Seq<char>
    decreases s.len(),
{
    if s.len() > 0 && is_white(s[0]) {
        trim_start_text(s.drop_first())
    } else {
        s
    }
}

/// `s` without its trailing whitespace.
pub open spec fn trim_end_text(s: Seq<char>) -> Seq<char>
    decreases s.len(),
{
    if s.len() > 0 && is_white(s.last()) {
        trim_end_text(s.drop_last())
    } else {
        s
    }
}

/// `s` without leading and trailing whitespace.
pub open spec fn trim_text(s: Seq<char>) -> Seq<char> {
    trim_end_text(trim_start_text(s))
}

/// `s` without its leading slashes.
pub open spec fn strip_slashes(s: Seq<char>) -> Seq<char>
    decreases s.len(),
{
    if s.len() > 0 && s[0] == '/' {
        strip_slashes(s.drop_first())
    } else {
        s
    }
}

/// The first position at or after `k` that holds whitespace (or the length).
pub open spec fn word_end(s: Seq<char>, k: int) -> int
    decreases s.len() - k,
{
    if 0 <= k < s.len() && !is_white(s[k]) {
        word_end(s, k + 1)
    } else {
        k
    }
}

pub proof fn lemma_trim_start(s: Seq<char>)
    ensures
        trim_start_text(s).len() <= s.len(),
        trim_start_text(s) == s.skip(s.len() - trim_start_text(s).len()),
        trim_start_text(s).len() > 0 ==> !is_white(trim_start_text(s)[0]),
    decreases s.len(),
{
    if s.len() > 0 && is_white(s[0]) {
        lemma_trim_start(s.drop_first());
        assert(s.drop_first().skip(s.drop_first().len() - trim_start_text(s).len()) =~= s.skip(
            s.len() - trim_start_text(s).len(),
        ));
    } else {
        assert(s.skip(0) =~= s);
    }
}

pub proof fn lemma_word_end(s: Seq<char>, k: int)
    requires
        0 <= k <= s.len(),
    ensures
        k <= word_end(s, k) <= s.len(),
        forall|j: int| k <= j < word_end(s, k) ==> !is_white(#[trigger] s[j]),
        word_end(s, k) < s.len() ==> is_white(s[word_end(s, k)]),
    decreases s.len() - k,
{
    if k < s.len() && !is_white(s[k]) {
        lemma_word_end(s, k + 1);
    }
}

/// The whitespace-separated words of `s`, in order.
pub open spec fn words(s: Seq<char>) -> Seq<Seq<char>>
    decreases s.len(),
{
    let t = trim_start_text(s);
    if t.len() == 0 {
        Seq::empty()
    } else {
        let k = word_end(t, 0);
        proof {
            lemma_trim_start(s);
            lemma_word_end(t, 0);
        }
        seq![t.take(k)] + words(t.skip(k))
    }
}

/// The words joined by single spaces.
pub open spec fn join_words(ws: Seq<Seq<char>>) -> Seq<char>
    decreases ws.len(),
{
    if ws.len() == 0 {
        Seq::empty()
    } else if ws.len() == 1 {
        ws[0]
    } else {
        join_words(ws.drop_last()) + " "@ + ws.last()
    }
}

pub open spec fn is_digit(c: char) -> bool {
    '0' <= c <= '9'
}

/// The number the decimal digits `d` write.
pub open spec fn digits_value(d: Seq<char>) -> int
    decreases d.len(),
{
    if d.len() == 0 {
        0
    } else {
        digits_value(d.drop_last()) * 10 + (d.last() as int - '0' as int)
    }
}

/// Every character of `d` is an ASCII digit.
pub open spec fn all_digits(d: Seq<char>) -> bool {
    forall|i: int| 0 <= i < d.len() ==> is_digit(#[trigger] d[i])
}

/// `s` without one leading `+`, where it has one.
pub open spec fn unsigned_part(s: Seq<char>) -> Seq<char> {
    if s.len() > 0 && s[0] == '+' {
        s.drop_first()
    } else {
        s
    }
}

/// What `u32::from_str` of std accepts: an optional `+`, then one or more ASCII digits
/// whose value fits in a `u32`.
pub open spec fn parse_u32_text(s: Seq<char>) -> Option<u32> {
    let d = unsigned_part(s);
    if d.len() > 0 && all_digits(d) && digits_value(d) <= u32::MAX {
        Some(digits_value(d) as u32)
    } else {
        None
    }
}

/// The characters of `cs` as a string.
pub fn string_of(cs: &[char]) -> (r: String)
    ensures
        r@ == cs@,
{
    let mut r = String::new();
    let mut i: usize = 0;
    while i < cs.len()
        invariant
            i <= cs@.len(),
            r@ == cs@.take(i as int),
        decreases cs@.len() - i,
    {
        string_push(&mut r, cs[i]);
        i = i + 1;
        assert(r@ =~= cs@.take(i as int));
    }
    assert(cs@.take(cs@.len() as int) =~= cs@);
    r
}

/// `s` without leading and trailing whitespace.
pub fn trim(s: &str) -> (r: String)
    ensures
        r@ == trim_text(s@),
{
    let cs = chars_of(s);
    let n = cs.len();
    let mut a: usize = 0;
    assert(s@.skip(0) =~= s@);
    while a < n && char_is_whitespace(cs[a])
        invariant
            n == s@.len(),
            cs@ == s@,
            a <= n,
            trim_start_text(s@) == trim_start_text(s@.skip(a as int)),
        decreases n - a,
    {
        assert(s@.skip(a as int).drop_first() =~= s@.skip(a + 1));
        a = a + 1;
    }
    let mut b: usize = n;
    let ghost t = s@.skip(a as int);
    assert(trim_start_text(t) == t) by {
        if t.len() > 0 {
            assert(t[0] == s@[a as int]);
        }
    }
    while b > a && char_is_whitespace(cs[b - 1])
        invariant
            n == s@.len(),
            cs@ == s@,
            a <= b <= n,
            t == s@.skip(a as int),
            trim_end_text(t) == trim_end_text(s@.subrange(a as int, b as int)),
        decreases b - a,
    {
        assert(s@.subrange(a as int, b as int).drop_last() =~= s@.subrange(a as int, b - 1));
        b = b - 1;
    }
    assert(t =~= s@.subrange(a as int, n as int)) by {
    }
    let ghost u = s@.subrange(a as int, b as int);
    assert(trim_end_text(u) == u) by {
        if u.len() > 0 {
            assert(u.last() == s@[b - 1]);
        }
    }
    let mut r = String::new();
    let mut i: usize = a;
    while i < b
        invariant
            cs@ == s@,
            a <= i <= b <= n,
            n == s@.len(),
            r@ == s@.subrange(a as int, i as int),
        decreases b - i,
    {
        string_push(&mut r, cs[i]);
        i = i + 1;
        assert(r@ =~= s@.subrange(a as int, i as int));
    }
    r
}

/// `s` without its leading slashes.
pub fn trim_slashes(s: &str) -> (r: String)
    ensures
        r@ == strip_slashes(s@),
{
    let cs = chars_of(s);
    let n = cs.len();
    let mut a: usize = 0;
    assert(s@.skip(0) =~= s@);
    while a < n && cs[a] == '/'
        invariant
            n == s@.len(),
            cs@ == s@,
            a <= n,
            strip_slashes(s@) == strip_slashes(s@.skip(a as int)),
        decreases n - a,
    {
        assert(s@.skip(a as int).drop_first() =~= s@.skip(a + 1));
        a = a + 1;
    }
    let mut r = String::new();
    let mut i: usize = a;
    while i < n
        invariant
            cs@ == s@,
            a <= i <= n,
            n == s@.len(),
            r@ == s@.subrange(a as int, i as int),
        decreases n - i,
    {
        string_push(&mut r, cs[i]);
        i = i + 1;
        assert(r@ =~= s@.subrange(a as int, i as int));
    }
    assert(s@.subrange(a as int, n as int) =~= s@.skip(a as int));
    r
}

/// The whitespace-separated words of `s`.
pub fn split_words(s: &str) -> (r: Vec<String>)
    ensures
        r@.len() == words(s@).len(),
        forall|i: int| 0 <= i < r@.len() ==> (#[trigger] r@[i])@ == words(s@)[i],
{
    let cs = chars_of(s);
    let n = cs.len();
    let mut r: Vec<String> = Vec::new();
    let mut i: usize = 0;
    proof {
        assert(s@.skip(0) =~= s@);
    }
    while i < n
        invariant
            n == s@.len(),
            cs@ == s@,
            i <= n,
            words(s@) == r@.map_values(|w: String| w@) + words(s@.skip(i as int)),
        decreases n - i,
    {
        let ghost rest = s@.skip(i as int);
        if char_is_whitespace(cs[i]) {
            proof {
                assert(rest.drop_first() =~= s@.skip(i + 1));
                assert(words(rest) == words(rest.drop_first()));
            }
            i = i + 1;
        } else {
            let start = i;
            let mut word: Vec<char> = Vec::new();
            while i < n && !char_is_whitespace(cs[i])
                invariant
                    n == s@.len(),
                    cs@ == s@,
                    start <= i <= n,
                    word@ == s@.subrange(start as int, i as int),
                    forall|j: int| start <= j < i ==> !is_white(#[trigger] s@[j]),
                decreases n - i,
            {
                word.push(cs[i]);
                i = i + 1;
                assert(word@ =~= s@.subrange(start as int, i as int));
            }
            proof {
                assert(trim_start_text(rest) == rest);
                lemma_word_end(rest, 0);
                assert(word_end(rest, 0) == i - start) by {
                    lemma_word_end_is(rest, 0, i - start);
                }
                assert(rest.take(i - start) =~= word@);
                assert(rest.skip(i - start) =~= s@.skip(i as int));
            }
            let ghost before = r@;
            r.push(string_of(word.as_slice()));
            proof {
                assert(r@.map_values(|w: String| w@) =~= before.map_values(|w: String| w@).push(word@));
            }
        }
    }
    proof {
        assert(s@.skip(n as int) =~= Seq::<char>::empty());
        assert(words(Seq::<char>::empty()) =~= Seq::<Seq<char>>::empty());
        assert(words(s@) =~= r@.map_values(|w: String| w@));
    }
    r
}

proof fn lemma_word_end_is(s: Seq<char>, k: int, e: int)
    requires
        0 <= k <= e <= s.len(),
        forall|j: int| k <= j < e ==> !is_white(#[trigger] s[j]),
        e < s.len() ==> is_white(s[e]),
    ensures
        word_end(s, k) == e,
    decreases e - k,
{
    if k < e {
        lemma_word_end_is(s, k + 1, e);
    }
}

/// The words from position `start` on, joined by single spaces.
pub fn join_strings(ws: &Vec<String>, start: usize) -> (r: String)
    requires
        start <= ws@.len(),
    ensures
        r@ == join_words(ws@.skip(start as int).map_values(|w: String| w@)),
{
    let mut r = String::new();
    let mut i: usize = start;
    assert(ws@.skip(start as int).take(0).map_values(|w: String| w@) =~= Seq::<Seq<char>>::empty());
    while i < ws.len()
        invariant
            start <= i <= ws@.len(),
            r@ == join_words(ws@.skip(start as int).take(i - start).map_values(|w: String| w@)),
        decreases ws@.len() - i,
    {
        let ghost rest = ws@.skip(start as int);
        proof {
            assert(rest.take(i - start + 1).map_values(|w: String| w@).drop_last() =~= rest.take(
                i - start,
            ).map_values(|w: String| w@));
            assert(rest.take(i - start + 1).map_values(|w: String| w@).last() == ws@[i as int]@);
        }
        if i > start {
            r = r.concat(" ");
        }
        r = r.concat(ws[i].as_str());
        i = i + 1;
        assert(r@ =~= join_words(rest.take(i - start).map_values(|w: String| w@)));
    }
    assert(ws@.skip(start as int).take(ws@.len() - start) =~= ws@.skip(start as int));
    r
}

/// `u32::from_str` of std: an optional `+`, then one or more ASCII digits whose value fits.
pub fn parse_u32(s: &str) -> (r: Option<u32>)
    ensures
        r == parse_u32_text(s@),
{
    let cs = chars_of(s);
    let n = cs.len();
    let start: usize = if n > 0 && cs[0] == '+' {
        1
    } else {
        0
    };
    let ghost d = unsigned_part(s@);
    assert(d =~= s@.skip(start as int));
    if start == n {
        return None;
    }
    let mut value: u64 = 0;
    let mut i: usize = start;
    while i < n
        invariant
            n == s@.len(),
            cs@ == s@,
            start < n,
            start <= i <= n,
            d == s@.skip(start as int),
            d == unsigned_part(s@),
            forall|j: int| start <= j < i ==> is_digit(#[trigger] s@[j]),
            value == digits_value(s@.subrange(start as int, i as int)),
            value <= u32::MAX,
        decreases n - i,
    {
        let c = cs[i];
        if !(c >= '0' && c <= '9') {
            assert(d[i - start] == s@[i as int]);
            assert(!is_digit(d[i - start]));
            return None;
        }
        let dv = (c as u32 - '0' as u32) as u64;
        proof {
            assert(s@.subrange(start as int, i + 1).drop_last() =~= s@.subrange(start as int, i as int));
        }
        value = value * 10 + dv;
        i = i + 1;
        assert(value == digits_value(s@.subrange(start as int, i as int)));
        if value > u32::MAX as u64 {
            proof {
                assert(d.take(i - start) =~= s@.subrange(start as int, i as int));
                if all_digits(d) {
                    lemma_digits_value_grows(d, i - start);
                }
            }
            return None;
        }
    }
    assert(s@.subrange(start as int, n as int) =~= d);
    Some(value as u32)
}

/// Decimal digits never write a negative number.
proof fn lemma_digits_value_nonneg(d: Seq<char>)
    requires
        all_digits(d),
    ensures
        digits_value(d) >= 0,
    decreases d.len(),
{
    if d.len() > 0 {
        lemma_digits_value_nonneg(d.drop_last());
        assert(is_digit(d[d.len() - 1]));
    }
}

/// Decimal digits never write less than a prefix of them does.
proof fn lemma_digits_value_grows(d: Seq<char>, k: int)
    requires
        0 <= k <= d.len(),
        all_digits(d),
    ensures
        digits_value(d.take(k)) <= digits_value(d),
    decreases d.len(),
{
    if k < d.len() {
        lemma_digits_value_grows(d.drop_last(), k);
        lemma_digits_value_nonneg(d.drop_last());
        assert(d.drop_last().take(k) =~= d.take(k));
        assert(is_digit(d[d.len() - 1]));
    } else {
        assert(d.take(k) =~= d);
    }
}

} // verus!
