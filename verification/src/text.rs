//! Character-level helpers shared by the rest of the crate: classes of
//! characters, trimming by class, substring search, decimal numbers and
//! UTF-8 decoding.

use vstd::prelude::*;
use vstd::std_specs::iter::IteratorSpec;
use vstd::string::*;
use vstd::utf8::*;

verus! {

/// Whether `c` has the Unicode property `White_Space`.
pub open spec fn is_whitespace(c: char) -> bool {
    let u = c as u32;
    ||| 0x09 <= u <= 0x0D
    ||| u == 0x20
    ||| u == 0x85
    ||| u == 0xA0
    ||| u == 0x1680
    ||| 0x2000 <= u <= 0x200A
    ||| u == 0x2028
    ||| u == 0x2029
    ||| u == 0x202F
    ||| u == 0x205F
    ||| u == 0x3000
}

/// A set of characters that a run of text may be trimmed by.
#[derive(Clone, Copy, Debug)]
pub enum CharClass {
    /// The single quote `'`.
    Quote,
    /// Unicode white space.
    Space,
    /// The path markers `.` and `/`.
    PathMarker,
    /// Everything but the blank `' '`.
    NotBlank,
    /// Everything but the statement separators, line feed and `;`.
    NotSeparator,
    /// Everything but `;`.
    NotSemicolon,
    /// Everything but the line feed.
    NotNewline,
    /// Everything but `/`.
    NotSlash,
}

impl CharClass {
    /// Whether `c` belongs to the class.
    pub open spec fn holds(self, c: char) -> bool {
        match self {
            CharClass::Quote => c == '\'',
            CharClass::Space => is_whitespace(c),
            CharClass::PathMarker => c == '.' || c == '/',
            CharClass::NotBlank => c != ' ',
            CharClass::NotSeparator => c != '\n' && c != ';',
            CharClass::NotSemicolon => c != ';',
            CharClass::NotNewline => c != '\n',
            CharClass::NotSlash => c != '/',
        }
    }

    /// Tests `c` against the class.
    pub fn test(self, c: char) -> (r: bool)
        ensures
            r == self.holds(c),
    {
        match self {
            CharClass::Quote => c == '\'',
            CharClass::Space => {
                let u: u32 = c as u32;
                (0x09 <= u && u <= 0x0D) || u == 0x20 || u == 0x85 || u == 0xA0 || u == 0x1680
                    || (0x2000 <= u && u <= 0x200A) || u == 0x2028 || u == 0x2029 || u == 0x202F
                    || u == 0x205F || u == 0x3000
            },
            CharClass::PathMarker => c == '.' || c == '/',
            CharClass::NotBlank => c != ' ',
            CharClass::NotSeparator => c != '\n' && c != ';',
            CharClass::NotSemicolon => c != ';',
            CharClass::NotNewline => c != '\n',
            CharClass::NotSlash => c != '/',
        }
    }
}

/// The number of characters at the start of `s` that belong to `k`.
pub open spec fn lead(s: Seq<char>, k: CharClass) -> int
    decreases s.len(),
{
    if s.len() > 0 && k.holds(s[0]) {
        1 + lead(s.drop_first(), k)
    } else {
        0
    }
}

/// The length that is left of `s` once the characters at its end that belong
/// to `k` are taken away.
pub open spec fn keep(s: Seq<char>, k: CharClass) -> int
    decreases s.len(),
{
    if s.len() > 0 && k.holds(s.last()) {
        keep(s.drop_last(), k)
    } else {
        s.len() as int
    }
}

/// `s` without the characters of `k` at either end.
pub open spec fn strip(s: Seq<char>, k: CharClass) -> Seq<char> {
    let t = s.take(keep(s, k));
    t.skip(lead(t, k))
}

/// What follows the last character of `s` that is outside `k`; all of `s`
/// where there is none.
pub open spec fn after_last(s: Seq<char>, k: CharClass) -> Seq<char> {
    s.skip(keep(s, k))
}

/// What precedes the first character of `s` that is outside `k`; all of `s`
/// where there is none.
pub open spec fn before_first(s: Seq<char>, k: CharClass) -> Seq<char> {
    s.take(lead(s, k))
}

/// What `keep` cuts off belongs to the class, and what it leaves does not
/// end with a character of the class.
pub proof fn lemma_keep_cuts(s: Seq<char>, k: CharClass)
    ensures
        0 <= keep(s, k) <= s.len(),
        forall|i: int| keep(s, k) <= i < s.len() ==> k.holds(#[trigger] s[i]),
        keep(s, k) > 0 ==> !k.holds(s[keep(s, k) - 1]),
    decreases s.len(),
{
    if s.len() > 0 && k.holds(s.last()) {
        let front = s.drop_last();
        lemma_keep_cuts(front, k);
        assert forall|i: int| keep(s, k) <= i < s.len() implies k.holds(#[trigger] s[i]) by {
            if i < front.len() {
                assert(front[i] == s[i]);
            }
        }
        if keep(s, k) > 0 {
            assert(front[keep(s, k) - 1] == s[keep(s, k) - 1]);
        }
    }
}

/// Characters of the class that are appended are cut off again.
pub proof fn lemma_keep_appended(s: Seq<char>, tail: Seq<char>, k: CharClass)
    requires
        forall|i: int| 0 <= i < tail.len() ==> k.holds(#[trigger] tail[i]),
    ensures
        keep(s + tail, k) == keep(s, k),
    decreases tail.len(),
{
    if tail.len() == 0 {
        assert(s + tail =~= s);
    } else {
        assert((s + tail).drop_last() =~= s + tail.drop_last());
        assert((s + tail).last() == tail.last());
        lemma_keep_appended(s, tail.drop_last(), k);
    }
}

/// A character of the class put in front is cut off with the rest where
/// nothing else is left, and stays where something is.
pub proof fn lemma_keep_prepended(s: Seq<char>, c: char, k: CharClass)
    requires
        k.holds(c),
    ensures
        keep(seq![c] + s, k) == if keep(s, k) > 0 {
            keep(s, k) + 1
        } else {
            0
        },
    decreases s.len(),
{
    let f = seq![c] + s;
    if s.len() == 0 {
        assert(f.last() == c);
        assert(f.drop_last() =~= Seq::<char>::empty());
        assert(keep(f.drop_last(), k) == 0);
        assert(keep(s, k) == 0);
    } else {
        assert(f.last() == s.last());
        assert(f.drop_last() =~= seq![c] + s.drop_last());
        if k.holds(s.last()) {
            lemma_keep_prepended(s.drop_last(), c, k);
        }
    }
}

/// Stripping a class takes a character of the class away that was put at
/// both ends.
pub proof fn lemma_strip_wrapped(s: Seq<char>, c: char, k: CharClass)
    requires
        k.holds(c),
    ensures
        strip(seq![c] + s + seq![c], k) == strip(s, k),
{
    let f = seq![c] + s;
    let w = f + seq![c];
    lemma_keep_appended(f, seq![c], k);
    lemma_keep_prepended(s, c, k);
    lemma_keep_cuts(s, k);
    let n = keep(s, k);
    if n > 0 {
        let inner = s.take(n);
        let outer = w.take(n + 1);
        assert(outer =~= seq![c] + inner);
        assert(outer.drop_first() =~= inner);
        lemma_lead_bounds(inner, k);
        assert(outer.skip(1 + lead(inner, k)) =~= inner.skip(lead(inner, k)));
    } else {
        assert(w.take(0) =~= s.take(0));
    }
}

/// No more characters lead a text than it holds.
pub proof fn lemma_lead_bounds(s: Seq<char>, k: CharClass)
    ensures
        0 <= lead(s, k) <= s.len(),
    decreases s.len(),
{
    if s.len() > 0 && k.holds(s[0]) {
        lemma_lead_bounds(s.drop_first(), k);
    }
}

/// The characters of `s`, in order.
pub fn to_chars(s: &str) -> (out: Vec<char>)
    ensures
        out@ == s@,
{
    broadcast use {axiom_spec_iter, next_postcondition};

    let mut out: Vec<char> = Vec::new();
    let mut it = s.chars();
    loop
        invariant
            s@ == out@ + it.remaining(),
            it.obeys_prophetic_iter_laws(),
            it.decrease() is Some,
        decreases it.decrease()->0,
    {
        match it.next() {
            Some(c) => {
                out.push(c);
                assert(s@ =~= out@ + it.remaining());
            },
            None => {
                assert(s@ =~= out@);
                return out;
            },
        }
    }
}

/// Moves `lo` forward over the characters of `k` at the start of
/// `v[lo..hi]`.
pub fn skip_leading(v: &Vec<char>, lo: usize, hi: usize, k: CharClass) -> (a: usize)
    requires
        lo <= hi <= v@.len(),
    ensures
        lo <= a <= hi,
        a == lo + lead(v@.subrange(lo as int, hi as int), k),
{
    let mut i: usize = lo;
    while i < hi && k.test(v[i])
        invariant
            lo <= i <= hi <= v@.len(),
            lead(v@.subrange(lo as int, hi as int), k) == (i - lo) + lead(
                v@.subrange(i as int, hi as int),
                k,
            ),
        decreases hi - i,
    {
        assert(v@.subrange(i as int, hi as int).drop_first() =~= v@.subrange(
            i as int + 1,
            hi as int,
        ));
        i = i + 1;
    }
    i
}

/// Moves `hi` backward over the characters of `k` at the end of
/// `v[lo..hi]`.
pub fn drop_trailing(v: &Vec<char>, lo: usize, hi: usize, k: CharClass) -> (b: usize)
    requires
        lo <= hi <= v@.len(),
    ensures
        lo <= b <= hi,
        b == lo + keep(v@.subrange(lo as int, hi as int), k),
{
    let mut j: usize = hi;
    while j > lo && k.test(v[j - 1])
        invariant
            lo <= j <= hi <= v@.len(),
            keep(v@.subrange(lo as int, hi as int), k) == keep(
                v@.subrange(lo as int, j as int),
                k,
            ),
        decreases j - lo,
    {
        assert(v@.subrange(lo as int, j as int).drop_last() =~= v@.subrange(
            lo as int,
            j as int - 1,
        ));
        j = j - 1;
    }
    j
}

/// Whether `pat` stands in `s` at index `i`.
pub open spec fn occurs_at(s: Seq<char>, pat: Seq<char>, i: int) -> bool {
    0 <= i && i + pat.len() <= s.len() && s.subrange(i, i + pat.len()) == pat
}

/// Whether `pat` stands somewhere in `s`.
pub open spec fn contains(s: Seq<char>, pat: Seq<char>) -> bool {
    exists|i: int| occurs_at(s, pat, i)
}

/// Whether `pat` stands in `v` at index `i`.
fn matches_at(v: &Vec<char>, pat: &Vec<char>, i: usize) -> (r: bool)
    requires
        i + pat@.len() <= v@.len(),
    ensures
        r == occurs_at(v@, pat@, i as int),
{
    let n: usize = v.len();
    let m: usize = pat.len();
    let mut k: usize = 0;
    while k < m
        invariant
            k <= m,
            m == pat@.len(),
            n == v@.len(),
            i + m <= n,
            forall|t: int| 0 <= t < k ==> v@[i + t] == pat@[t],
        decreases m - k,
    {
        if v[i + k] != pat[k] {
            assert(v@.subrange(i as int, i + m)[k as int] != pat@[k as int]);
            return false;
        }
        k = k + 1;
    }
    assert(v@.subrange(i as int, i + m) =~= pat@);
    true
}

/// Searches `v` for `pat`.
pub fn find(v: &Vec<char>, pat: &Vec<char>) -> (r: bool)
    ensures
        r == contains(v@, pat@),
{
    let n: usize = v.len();
    let m: usize = pat.len();
    if m > n {
        return false;
    }
    let last: usize = n - m;
    let mut i: usize = 0;
    loop
        invariant
            m <= n,
            n == v@.len(),
            m == pat@.len(),
            last == n - m,
            i <= last,
            forall|j: int| 0 <= j < i ==> !occurs_at(v@, pat@, j),
        decreases last - i,
    {
        if matches_at(v, pat, i) {
            return true;
        }
        if i == last {
            return false;
        }
        i = i + 1;
    }
}

/// Whether `c` is one of the digits `0` to `9`.
pub open spec fn is_digit(c: char) -> bool {
    0x30 <= c as u32 <= 0x39
}

/// Whether `s` holds digits only.
pub open spec fn all_digits(s: Seq<char>) -> bool {
    forall|i: int| 0 <= i < s.len() ==> is_digit(#[trigger] s[i])
}

/// The number that the digits `s` write in base ten.
pub open spec fn decimal_value(s: Seq<char>) -> nat
    decreases s.len(),
{
    if s.len() == 0 {
        0
    } else {
        decimal_value(s.drop_last()) * 10 + (s.last() as u32 - 0x30) as nat
    }
}

/// The number that `s` writes: an optional `+`, then at least one digit, and
/// a value that fits in 32 bits.
pub open spec fn parse_u32(s: Seq<char>) -> Option<u32> {
    let d = if s.len() > 0 && s[0] == '+' {
        s.skip(1)
    } else {
        s
    };
    if d.len() > 0 && all_digits(d) && decimal_value(d) <= u32::MAX {
        Some(decimal_value(d) as u32)
    } else {
        None
    }
}

/// A number written with more digits is no smaller.
pub proof fn lemma_decimal_prefix(s: Seq<char>, i: int)
    requires
        0 <= i <= s.len(),
        all_digits(s),
    ensures
        decimal_value(s.take(i)) <= decimal_value(s),
    decreases s.len(),
{
    if i == s.len() {
        assert(s.take(i) =~= s);
    } else {
        assert(s.drop_last().take(i) =~= s.take(i));
        lemma_decimal_prefix(s.drop_last(), i);
    }
}

/// Reads `v[lo..hi]` as a number in base ten.
pub fn parse_decimal(v: &Vec<char>, lo: usize, hi: usize) -> (r: Option<u32>)
    requires
        lo <= hi <= v@.len(),
    ensures
        r == parse_u32(v@.subrange(lo as int, hi as int)),
{
    let ghost s = v@.subrange(lo as int, hi as int);
    let mut i: usize = lo;
    if i < hi && v[i] == '+' {
        i = i + 1;
    }
    let start: usize = i;
    let ghost d = v@.subrange(start as int, hi as int);
    proof {
        if start > lo {
            assert(s.skip(1) =~= d);
        } else {
            assert(s =~= d);
        }
    }
    if i == hi {
        return None;
    }
    let mut acc: u64 = 0;
    while i < hi
        invariant
            lo <= start <= i <= hi <= v@.len(),
            s == v@.subrange(lo as int, hi as int),
            d == v@.subrange(start as int, hi as int),
            d == (if s.len() > 0 && s[0] == '+' {
                s.skip(1)
            } else {
                s
            }),
            d.len() > 0,
            all_digits(v@.subrange(start as int, i as int)),
            acc == decimal_value(v@.subrange(start as int, i as int)),
            acc <= u32::MAX,
        decreases hi - i,
    {
        let c: char = v[i];
        let u: u32 = c as u32;
        if u < 0x30 || u > 0x39 {
            assert(!is_digit(d[i - start]));
            return None;
        }
        let next: u64 = acc * 10 + (u - 0x30) as u64;
        proof {
            let t = v@.subrange(start as int, i as int + 1);
            assert(t.drop_last() =~= v@.subrange(start as int, i as int));
            assert(decimal_value(t) == next);
            assert(all_digits(t)) by {
                assert forall|j: int| 0 <= j < t.len() implies is_digit(#[trigger] t[j]) by {
                    if j < i - start {
                        assert(t[j] == v@.subrange(start as int, i as int)[j]);
                    }
                }
            }
            if next > u32::MAX {
                if all_digits(d) {
                    assert(d.take(i - start + 1) =~= t);
                    lemma_decimal_prefix(d, i - start + 1);
                }
            }
        }
        if next > u32::MAX as u64 {
            return None;
        }
        acc = next;
        i = i + 1;
    }
    Some(acc as u32)
}

/// The digit that writes `d`.
pub open spec fn digit_char(d: nat) -> char {
    if d == 0 {
        '0'
    } else if d == 1 {
        '1'
    } else if d == 2 {
        '2'
    } else if d == 3 {
        '3'
    } else if d == 4 {
        '4'
    } else if d == 5 {
        '5'
    } else if d == 6 {
        '6'
    } else if d == 7 {
        '7'
    } else if d == 8 {
        '8'
    } else {
        '9'
    }
}

/// `n` written in base ten, without leading zeros.
pub open spec fn decimal(n: nat) -> Seq<char>
    decreases n,
{
    if n < 10 {
        seq![digit_char(n)]
    } else {
        decimal(n / 10).push(digit_char(n % 10))
    }
}

/// A number that is written and read again is the same number.
pub proof fn lemma_decimal_round_trip(n: nat)
    ensures
        decimal(n).len() > 0,
        all_digits(decimal(n)),
        decimal_value(decimal(n)) == n,
        n <= u32::MAX ==> parse_u32(decimal(n)) == Some(n as u32),
    decreases n,
{
    let text = decimal(n);
    if n < 10 {
        assert(text.drop_last() =~= Seq::<char>::empty());
        assert(decimal_value(text.drop_last()) == 0);
        assert(text.last() == digit_char(n));
    } else {
        lemma_decimal_round_trip(n / 10);
        assert(text.drop_last() =~= decimal(n / 10));
        assert(text.last() == digit_char(n % 10));
        assert forall|i: int| 0 <= i < text.len() implies is_digit(#[trigger] text[i]) by {
            if i < text.len() - 1 {
                assert(text[i] == decimal(n / 10)[i]);
            }
        }
    }
    assert(is_digit(text[0]));
}

/// The text of one digit.
fn digit_text(d: u32) -> (r: &'static str)
    requires
        d < 10,
    ensures
        r@ == seq![digit_char(d as nat)],
{
    proof {
        reveal_strlit("0");
        reveal_strlit("1");
        reveal_strlit("2");
        reveal_strlit("3");
        reveal_strlit("4");
        reveal_strlit("5");
        reveal_strlit("6");
        reveal_strlit("7");
        reveal_strlit("8");
        reveal_strlit("9");
    }
    let r = if d == 0 {
        "0"
    } else if d == 1 {
        "1"
    } else if d == 2 {
        "2"
    } else if d == 3 {
        "3"
    } else if d == 4 {
        "4"
    } else if d == 5 {
        "5"
    } else if d == 6 {
        "6"
    } else if d == 7 {
        "7"
    } else if d == 8 {
        "8"
    } else {
        "9"
    };
    assert(r@ =~= seq![digit_char(d as nat)]);
    r
}

/// Writes `n` in base ten.
pub fn render_decimal(n: u32) -> (r: String)
    ensures
        r@ == decimal(n as nat),
    decreases n,
{
    if n < 10 {
        digit_text(n).to_owned()
    } else {
        let head = render_decimal(n / 10);
        let r = head.concat(digit_text(n % 10));
        assert(r@ =~= decimal(n as nat));
        r
    }
}

/// Decodes `bytes` as UTF-8 with `std::str::from_utf8`: there is a text
/// exactly when the bytes are valid UTF-8, and it is then the text that
/// these bytes encode.
#[verifier::external_body]
pub(crate) fn decode(bytes: &[u8]) -> (r: Option<&str>)
    ensures
        r is Some <==> valid_utf8(bytes@),
        r matches Some(s) ==> s@ == decode_utf8(bytes@) && encode_utf8(s@) == bytes@,
{
    std::str::from_utf8(bytes).ok()
}

} // verus!
