//! Text helpers: numerals, ASCII case folding, trimming, search and order.

use vstd::prelude::*;

verus! {

/// `String::push` adds one character at the end of the text.
pub assume_specification[ String::push ](s: &mut String, c: char)
    ensures
        final(s)@ == old(s)@.push(c),
;

/// `char::is_whitespace` holds exactly of the characters that have the
/// Unicode property `White_Space`.
pub assume_specification[ char::is_whitespace ](c: char) -> (white: bool)
    ensures
        white == is_white(c),
;

/// The characters with the Unicode property `White_Space`.
pub open spec fn is_white(c: char) -> bool {
    let n = c as u32;
    ||| 0x9 <= n <= 0xd
    ||| n == 0x20
    ||| n == 0x85
    ||| n == 0xa0
    ||| n == 0x1680
    ||| 0x2000 <= n <= 0x200a
    ||| n == 0x2028
    ||| n == 0x2029
    ||| n == 0x202f
    ||| n == 0x205f
    ||| n == 0x3000
}

/// The text in capitals by the rules of Unicode.
pub uninterp spec fn uppercase(text: Seq<char>) -> Seq<char>;

/// The text in small letters by the rules of Unicode.
pub uninterp spec fn lowercase(text: Seq<char>) -> Seq<char>;

/// `str::to_uppercase`: the text in capitals.
#[verifier::external_body]
pub(crate) fn to_upper(text: &str) -> (upper: String)
    ensures
        upper@ == uppercase(text@),
{
    text.to_uppercase()
}

/// `str::to_lowercase`: the text in small letters.
#[verifier::external_body]
pub(crate) fn to_lower(text: &str) -> (lower: String)
    ensures
        lower@ == lowercase(text@),
{
    text.to_lowercase()
}

// ---------------------------------------------------------------------------
// Characters and strings
// ---------------------------------------------------------------------------

/// The characters of a string.
pub fn chars_of(s: &str) -> (chars: Vec<char>)
    ensures
        chars@ == s@,
{
    let mut chars: Vec<char> = Vec::new();
    for c in it: s.chars()
        invariant
            it.seq() == s@,
            chars@ == s@.take(it.index() as int),
    {
        proof {
            assert(s@.take(it.index() as int).push(c) =~= s@.take(it.index() as int + 1));
        }
        chars.push(c);
    }
    proof {
        assert(s@.take(s@.len() as int) =~= s@);
    }
    chars
}

/// The string with the given characters.
pub fn text_of(chars: &[char]) -> (text: String)
    ensures
        text@ == chars@,
{
    let mut text: String = String::new();
    let mut i: usize = 0;
    while i < chars.len()
        invariant
            i <= chars.len(),
            text@ == chars@.take(i as int),
        decreases chars.len() - i,
    {
        text.push(chars[i]);
        proof {
            assert(chars@.take(i as int).push(chars@[i as int]) =~= chars@.take(i as int + 1));
        }
        i += 1;
    }
    proof {
        assert(chars@.take(chars@.len() as int) =~= chars@);
    }
    text
}

/// Whether two strings hold the same characters.
pub fn same_text(a: &str, b: &str) -> (same: bool)
    ensures
        same == (a@ == b@),
{
    let left: Vec<char> = chars_of(a);
    let right: Vec<char> = chars_of(b);
    same_chars(&left, &right)
}

/// Whether two character lists are equal.
pub fn same_chars(a: &[char], b: &[char]) -> (same: bool)
    ensures
        same == (a@ == b@),
{
    if a.len() != b.len() {
        return false;
    }
    let mut i: usize = 0;
    while i < a.len()
        invariant
            i <= a.len(),
            a.len() == b.len(),
            forall|k: int| 0 <= k < i ==> a@[k] == b@[k],
        decreases a.len() - i,
    {
        if a[i] != b[i] {
            return false;
        }
        i += 1;
    }
    proof {
        assert(a@ =~= b@);
    }
    true
}

// ---------------------------------------------------------------------------
// Numerals
// ---------------------------------------------------------------------------

/// The character of a single decimal digit.
pub open spec fn digit_char(d: nat) -> char {
    ('0' as nat + d % 10) as char
}

/// The numeral of `n` in base ten, most significant digit first.
pub open spec fn decimal(n: nat) -> Seq<char>
    decreases n,
{
    if n < 10 {
        seq![digit_char(n)]
    } else {
        decimal(n / 10).push(digit_char(n % 10))
    }
}

/// The last `width` digits of `n` in base ten.
pub open spec fn digits(n: nat, width: nat) -> Seq<char>
    decreases width,
{
    if width == 0 {
        Seq::<char>::empty()
    } else {
        digits(n / 10, (width - 1) as nat).push(digit_char(n % 10))
    }
}

/// The character of a single decimal digit.
pub fn digit(d: u128) -> (c: char)
    requires
        d < 10,
    ensures
        c == digit_char(d as nat),
{
    let b: u8 = 48 + d as u8;
    b as char
}

/// Writes `n` in base ten.
pub fn decimal_text(n: u128) -> (text: String)
    ensures
        text@ == decimal(n as nat),
    decreases n,
{
    if n < 10 {
        let mut text: String = String::new();
        text.push(digit(n));
        proof {
            assert(text@ =~= seq![digit_char(n as nat)]);
        }
        text
    } else {
        let mut text: String = decimal_text(n / 10);
        text.push(digit(n % 10));
        text
    }
}

/// Writes `n` in base ten with exactly `width` digits, dropping what is more
/// significant and filling up with zeros.
pub fn digits_text(n: u128, width: usize) -> (text: String)
    ensures
        text@ == digits(n as nat, width as nat),
    decreases width,
{
    if width == 0 {
        String::new()
    } else {
        let mut text: String = digits_text(n / 10, width - 1);
        text.push(digit(n % 10));
        text
    }
}

/// The numeral of a number below a power of ten is no longer than the exponent.
pub proof fn lemma_decimal_len(n: nat, bound: nat, width: nat)
    requires
        n < bound,
        width >= 1,
        bound == pow10(width),
    ensures
        1 <= decimal(n).len() <= width,
    decreases width,
{
    reveal_with_fuel(pow10, 2);
    if n >= 10 {
        assert(width >= 2) by {
            if width == 1 {
                assert(pow10(1) == 10 * pow10(0));
            }
        }
        assert(n / 10 < pow10((width - 1) as nat)) by {
            assert(bound == 10 * pow10((width - 1) as nat));
        }
        lemma_decimal_len(n / 10, pow10((width - 1) as nat), (width - 1) as nat);
    }
}

/// Ten to the power `e`.
pub open spec fn pow10(e: nat) -> nat
    decreases e,
{
    if e == 0 {
        1
    } else {
        10 * pow10((e - 1) as nat)
    }
}

/// A number below ten to the twentieth has a numeral of one to twenty digits.
pub proof fn lemma_decimal_len_20(n: nat)
    requires
        n < 100000000000000000000,
    ensures
        1 <= decimal(n).len() <= 20,
{
    assert(pow10(20) == 100000000000000000000) by {
        reveal_with_fuel(pow10, 21);
    }
    lemma_decimal_len(n, pow10(20), 20);
}

/// Every character of a numeral is a digit.
pub proof fn lemma_decimal_digits(n: nat)
    ensures
        forall|i: int| 0 <= i < decimal(n).len() ==> '0' <= #[trigger] decimal(n)[i] <= '9',
    decreases n,
{
    if n >= 10 {
        lemma_decimal_digits(n / 10);
        let front = decimal(n / 10);
        assert forall|i: int| 0 <= i < decimal(n).len() implies '0' <= #[trigger] decimal(
            n,
        )[i] <= '9' by {
            if i < front.len() {
                assert(decimal(n)[i] == front[i]);
            }
        }
    }
}

/// Different numbers have different numerals.
pub proof fn lemma_decimal_injective(a: nat, b: nat)
    requires
        decimal(a) == decimal(b),
    ensures
        a == b,
    decreases a,
{
    let x = decimal(a);
    let y = decimal(b);
    assert(forall|d: nat| d < 10 ==> #[trigger] digit_char(d) as nat == 48 + d);
    if a < 10 && b < 10 {
        assert(x[0] == digit_char(a));
        assert(y[0] == digit_char(b));
    } else if a < 10 {
        lemma_decimal_nonempty(b / 10);
        assert(y.len() >= 2);
        assert(x.len() == 1);
    } else if b < 10 {
        lemma_decimal_nonempty(a / 10);
        assert(x.len() >= 2);
        assert(y.len() == 1);
    } else {
        assert(x.drop_last() =~= decimal(a / 10));
        assert(y.drop_last() =~= decimal(b / 10));
        assert(x.last() == digit_char(a % 10));
        assert(y.last() == digit_char(b % 10));
        lemma_decimal_injective(a / 10, b / 10);
    }
}

/// A numeral has at least one digit.
pub proof fn lemma_decimal_nonempty(n: nat)
    ensures
        decimal(n).len() >= 1,
    decreases n,
{
    if n >= 10 {
        lemma_decimal_nonempty(n / 10);
    }
}

// ---------------------------------------------------------------------------
// ASCII case
// ---------------------------------------------------------------------------

/// An ASCII capital as its small letter; any other character as it is.
pub open spec fn fold_char(c: char) -> char {
    if 'A' <= c <= 'Z' {
        (c as u32 + 32) as char
    } else {
        c
    }
}

/// The text with each ASCII capital replaced by its small letter.
pub open spec fn fold(s: Seq<char>) -> Seq<char> {
    Seq::new(s.len(), |i: int| fold_char(s[i]))
}

/// The code point of a character after ASCII case folding.
fn fold_code(c: char) -> (code: u32)
    ensures
        code == fold_char(c) as u32,
{
    let n: u32 = c as u32;
    if 0x41 <= n && n <= 0x5a {
        n + 32
    } else {
        n
    }
}

/// Whether two texts are the same but for the case of ASCII letters.
pub fn same_ignoring_ascii_case(a: &str, b: &str) -> (same: bool)
    ensures
        same == (fold(a@) == fold(b@)),
{
    let left: Vec<char> = chars_of(a);
    let right: Vec<char> = chars_of(b);
    if left.len() != right.len() {
        proof {
            assert(fold(a@).len() != fold(b@).len());
        }
        return false;
    }
    let mut i: usize = 0;
    while i < left.len()
        invariant
            i <= left.len(),
            left.len() == right.len(),
            left@ == a@,
            right@ == b@,
            forall|k: int| 0 <= k < i ==> fold_char(a@[k]) == fold_char(b@[k]),
        decreases left.len() - i,
    {
        if fold_code(left[i]) != fold_code(right[i]) {
            proof {
                assert(fold(a@)[i as int] != fold(b@)[i as int]);
            }
            return false;
        }
        i += 1;
    }
    proof {
        assert(fold(a@) =~= fold(b@));
    }
    true
}

// ---------------------------------------------------------------------------
// Trimming
// ---------------------------------------------------------------------------

/// Where the text starts once white space at its front is left out.
pub open spec fn trim_start(s: Seq<char>) -> int
    decreases s.len(),
{
    if s.len() > 0 && is_white(s[0]) {
        1 + trim_start(s.skip(1))
    } else {
        0
    }
}

/// Where the text ends once white space at its back is left out.
pub open spec fn trim_end(s: Seq<char>) -> int
    decreases s.len(),
{
    if s.len() > 0 && is_white(s.last()) {
        trim_end(s.drop_last())
    } else {
        s.len() as int
    }
}

/// The text without white space at its front and back.
pub open spec fn trim(s: Seq<char>) -> Seq<char> {
    let rest = s.skip(trim_start(s));
    rest.take(trim_end(rest))
}

/// Trimming stays within the text.
pub proof fn lemma_trim_bounds(s: Seq<char>)
    ensures
        0 <= trim_start(s) <= s.len(),
        0 <= trim_end(s) <= s.len(),
    decreases s.len(),
{
    if s.len() > 0 {
        lemma_trim_bounds(s.skip(1));
        lemma_trim_bounds(s.drop_last());
    }
}

/// A trimmed text is no longer than the text, and neither starts nor ends with
/// white space.
pub proof fn law_trimmed_text_has_no_white_ends(s: Seq<char>)
    ensures
        trim(s).len() <= s.len(),
        trim(s).len() > 0 ==> !is_white(trim(s)[0]) && !is_white(trim(s).last()),
{
    lemma_trim_bounds(s);
    lemma_trim_start_stops(s);
    let rest = s.skip(trim_start(s));
    lemma_trim_bounds(rest);
    lemma_trim_end_stops(rest);
}

proof fn lemma_trim_start_stops(s: Seq<char>)
    ensures
        0 <= trim_start(s) <= s.len(),
        trim_start(s) < s.len() ==> !is_white(s[trim_start(s)]),
    decreases s.len(),
{
    if s.len() > 0 && is_white(s[0]) {
        lemma_trim_start_stops(s.skip(1));
    }
}

proof fn lemma_trim_end_stops(s: Seq<char>)
    ensures
        0 <= trim_end(s) <= s.len(),
        trim_end(s) > 0 ==> !is_white(s[trim_end(s) - 1]),
    decreases s.len(),
{
    if s.len() > 0 && is_white(s.last()) {
        lemma_trim_end_stops(s.drop_last());
    }
}

/// The characters of a text without white space at its front and back.
pub fn trimmed(s: &str) -> (chars: Vec<char>)
    ensures
        chars@ == trim(s@),
{
    let all: Vec<char> = chars_of(s);
    let mut start: usize = 0;
    proof {
        assert(all@.skip(0) =~= all@);
        lemma_trim_bounds(all@);
    }
    while start < all.len() && all[start].is_whitespace()
        invariant
            start <= all.len(),
            trim_start(all@) == start + trim_start(all@.skip(start as int)),
        decreases all.len() - start,
    {
        proof {
            assert(all@.skip(start as int).skip(1) =~= all@.skip(start as int + 1));
        }
        start += 1;
    }
    let ghost rest = all@.skip(start as int);
    proof {
        assert(trim_start(rest) == 0);
        assert(rest =~= all@.skip(trim_start(all@)));
        lemma_trim_bounds(rest);
        assert(rest.take(rest.len() as int) =~= rest);
    }
    let mut end: usize = all.len();
    while end > start && all[end - 1].is_whitespace()
        invariant
            start <= end <= all.len(),
            rest == all@.skip(start as int),
            trim_end(rest) == trim_end(rest.take(end - start)),
        decreases end,
    {
        proof {
            let now = rest.take(end - start);
            assert(now.last() == all@[end - 1]);
            assert(now.drop_last() =~= rest.take(end - start - 1));
        }
        end -= 1;
    }
    let mut chars: Vec<char> = Vec::new();
    let mut i: usize = start;
    while i < end
        invariant
            start <= i <= end <= all.len(),
            chars@ == all@.subrange(start as int, i as int),
        decreases end - i,
    {
        chars.push(all[i]);
        proof {
            assert(all@.subrange(start as int, i as int).push(all@[i as int]) =~= all@.subrange(
                start as int,
                i as int + 1,
            ));
        }
        i += 1;
    }
    proof {
        let now = rest.take(end - start);
        assert(now.len() > 0 ==> now.last() == all@[end - 1]);
        assert(trim_end(now) == now.len());
        assert(all@.subrange(start as int, end as int) =~= now);
    }
    chars
}

// ---------------------------------------------------------------------------
// Search and order
// ---------------------------------------------------------------------------

/// Whether `part` stands in `s` at position `at`.
pub open spec fn stands_at(s: Seq<char>, part: Seq<char>, at: int) -> bool {
    0 <= at && at + part.len() <= s.len() && s.subrange(at, at + part.len()) == part
}

/// Whether `part` stands somewhere in `s`.
pub open spec fn holds_part(s: Seq<char>, part: Seq<char>) -> bool {
    exists|at: int| stands_at(s, part, at)
}

/// Whether `part` stands in `s` at position `at`.
pub fn part_at(s: &[char], part: &[char], at: usize) -> (found: bool)
    ensures
        found == stands_at(s@, part@, at as int),
{
    if part.len() > s.len() || at > s.len() - part.len() {
        return false;
    }
    let mut i: usize = 0;
    while i < part.len()
        invariant
            i <= part.len(),
            at + part.len() <= s.len(),
            forall|k: int| 0 <= k < i ==> s@[at + k] == part@[k],
        decreases part.len() - i,
    {
        if s[at + i] != part[i] {
            proof {
                assert(s@.subrange(at as int, at + part.len())[i as int] != part@[i as int]);
            }
            return false;
        }
        i += 1;
    }
    proof {
        assert(s@.subrange(at as int, at + part.len()) =~= part@);
    }
    true
}

/// Whether `part` stands somewhere in `s`.
pub fn has_part(s: &[char], part: &[char]) -> (found: bool)
    ensures
        found == holds_part(s@, part@),
{
    if part.len() > s.len() {
        return false;
    }
    let mut at: usize = 0;
    while at <= s.len() - part.len()
        invariant
            part.len() <= s.len(),
            at <= s.len() - part.len() + 1,
            forall|k: int| 0 <= k < at ==> !stands_at(s@, part@, k),
        decreases s.len() - part.len() + 1 - at,
    {
        if part_at(s, part, at) {
            return true;
        }
        if at == s.len() - part.len() {
            proof {
                assert forall|k: int| !stands_at(s@, part@, k) by {}
            }
            return false;
        }
        at += 1;
    }
    false
}

/// Whether the characters of `part` occur in `s` in their order, not
/// necessarily side by side.
pub open spec fn is_subsequence(part: Seq<char>, s: Seq<char>) -> bool
    decreases s.len(),
{
    if part.len() == 0 {
        true
    } else if s.len() == 0 {
        false
    } else if s[0] == part[0] {
        is_subsequence(part.skip(1), s.skip(1))
    } else {
        is_subsequence(part, s.skip(1))
    }
}

/// Whether the characters of `part` occur in `s` in their order.
pub fn has_subsequence(s: &[char], part: &[char]) -> (found: bool)
    ensures
        found == is_subsequence(part@, s@),
{
    let mut i: usize = 0;
    let mut k: usize = 0;
    proof {
        assert(s@.skip(0) =~= s@);
        assert(part@.skip(0) =~= part@);
    }
    while i < s.len() && k < part.len()
        invariant
            i <= s.len(),
            k <= part.len(),
            is_subsequence(part@, s@) == is_subsequence(part@.skip(k as int), s@.skip(i as int)),
        decreases s.len() - i,
    {
        proof {
            assert(s@.skip(i as int).skip(1) =~= s@.skip(i as int + 1));
            assert(part@.skip(k as int).skip(1) =~= part@.skip(k as int + 1));
        }
        if s[i] == part[k] {
            k += 1;
        }
        i += 1;
    }
    k == part.len()
}

/// Strict lexicographic order by code point.
pub open spec fn precedes(a: Seq<char>, b: Seq<char>) -> bool
    decreases a.len(),
{
    if b.len() == 0 {
        false
    } else if a.len() == 0 {
        true
    } else if a[0] != b[0] {
        a[0] < b[0]
    } else {
        precedes(a.skip(1), b.skip(1))
    }
}

/// Whether `a` comes strictly before `b` in lexicographic order.
pub fn comes_before(a: &[char], b: &[char]) -> (before: bool)
    ensures
        before == precedes(a@, b@),
{
    let mut i: usize = 0;
    proof {
        assert(a@.skip(0) =~= a@);
        assert(b@.skip(0) =~= b@);
    }
    while i < a.len() && i < b.len()
        invariant
            i <= a.len(),
            i <= b.len(),
            precedes(a@, b@) == precedes(a@.skip(i as int), b@.skip(i as int)),
        decreases a.len() - i,
    {
        proof {
            assert(a@.skip(i as int).skip(1) =~= a@.skip(i as int + 1));
            assert(b@.skip(i as int).skip(1) =~= b@.skip(i as int + 1));
        }
        if a[i] != b[i] {
            return a[i] < b[i];
        }
        i += 1;
    }
    i < b.len()
}

/// No text comes before itself.
pub proof fn lemma_precedes_irreflexive(a: Seq<char>)
    ensures
        !precedes(a, a),
    decreases a.len(),
{
    if a.len() > 0 {
        lemma_precedes_irreflexive(a.skip(1));
    }
}

/// The order is transitive.
pub proof fn lemma_precedes_transitive(a: Seq<char>, b: Seq<char>, c: Seq<char>)
    requires
        precedes(a, b),
        precedes(b, c),
    ensures
        precedes(a, c),
    decreases a.len(),
{
    if a.len() > 0 && b.len() > 0 && c.len() > 0 && a[0] == b[0] && b[0] == c[0] {
        lemma_precedes_transitive(a.skip(1), b.skip(1), c.skip(1));
    }
}

/// Of two different texts one comes before the other.
pub proof fn lemma_precedes_total(a: Seq<char>, b: Seq<char>)
    ensures
        precedes(a, b) || precedes(b, a) || a == b,
    decreases a.len(),
{
    if a.len() > 0 && b.len() > 0 {
        if a[0] == b[0] {
            lemma_precedes_total(a.skip(1), b.skip(1));
            if a.skip(1) == b.skip(1) {
                assert(a =~= seq![a[0]] + a.skip(1));
                assert(b =~= seq![b[0]] + b.skip(1));
            }
        }
    } else {
        if a.len() == 0 && b.len() == 0 {
            assert(a =~= b);
        }
    }
}

// ---------------------------------------------------------------------------
// Lists of strings
// ---------------------------------------------------------------------------

/// The characters of a list of strings.
pub open spec fn views(list: Seq<String>) -> Seq<Seq<char>> {
    Seq::new(list.len(), |i: int| list[i]@)
}

/// The texts one behind the other, with a separator between them.
pub open spec fn joined(list: Seq<Seq<char>>, separator: Seq<char>) -> Seq<char>
    decreases list.len(),
{
    if list.len() == 0 {
        Seq::empty()
    } else if list.len() == 1 {
        list[0]
    } else {
        joined(list.drop_last(), separator) + separator + list.last()
    }
}

/// The texts one behind the other, with a separator between them.
pub fn join(list: &Vec<String>, separator: &str) -> (text: String)
    ensures
        text@ == joined(views(list@), separator@),
{
    let mut text: String = String::new();
    let ghost all = views(list@);
    let mut i: usize = 0;
    while i < list.len()
        invariant
            i <= list.len(),
            all == views(list@),
            text@ == joined(all.take(i as int), separator@),
        decreases list.len() - i,
    {
        proof {
            assert(all.take(i as int + 1).drop_last() =~= all.take(i as int));
        }
        if i > 0 {
            text.append(separator);
        }
        text.append(&list[i]);
        proof {
            assert(i == 0 ==> text@ =~= all.take(1)[0]);
        }
        i += 1;
    }
    proof {
        assert(all.take(all.len() as int) =~= all);
    }
    text
}

/// A text is a subsequence of another where its characters can be found there at
/// places that go on and on, and only there.
pub proof fn law_subsequence_is_found_in_order(part: Seq<char>, s: Seq<char>)
    ensures
        is_subsequence(part, s) <==> exists|places: Seq<int>| #[trigger]
            are_places_of(part, s, places),
{
    if is_subsequence(part, s) {
        lemma_places_of_subsequence(part, s);
    }
    if exists|places: Seq<int>| #[trigger] are_places_of(part, s, places) {
        let places = choose|places: Seq<int>| #[trigger] are_places_of(part, s, places);
        lemma_subsequence_of_places(part, s, places);
    }
}

/// Whether the places, one behind the other, are such at which the characters of
/// `part` stand in `s`.
pub open spec fn are_places_of(part: Seq<char>, s: Seq<char>, places: Seq<int>) -> bool {
    &&& places.len() == part.len()
    &&& forall|k: int| 0 <= k < places.len() ==> 0 <= #[trigger] places[k] < s.len()
    &&& forall|k: int| 0 <= k < places.len() ==> s[#[trigger] places[k]] == part[k]
    &&& forall|k: int, l: int| 0 <= k < l < places.len() ==> #[trigger] places[k] < #[trigger] places[l]
}

proof fn lemma_places_of_subsequence(part: Seq<char>, s: Seq<char>)
    requires
        is_subsequence(part, s),
    ensures
        exists|places: Seq<int>| #[trigger] are_places_of(part, s, places),
    decreases s.len(),
{
    if part.len() == 0 {
        assert(are_places_of(part, s, Seq::empty()));
    } else {
        let rest = s.skip(1);
        if s[0] == part[0] {
            let tail = part.skip(1);
            lemma_places_of_subsequence(tail, rest);
            let found = choose|places: Seq<int>| #[trigger] are_places_of(tail, rest, places);
            let places = Seq::new(
                part.len(),
                |k: int|
                    if k == 0 {
                        0
                    } else {
                        found[k - 1] + 1
                    },
            );
            assert forall|k: int| 0 <= k < places.len() implies 0 <= #[trigger] places[k] < s.len()
                && s[places[k]] == part[k] by {
                if k > 0 {
                    assert(0 <= found[k - 1] < rest.len());
                    assert(rest[found[k - 1]] == tail[k - 1]);
                }
            }
            assert forall|k: int, l: int| 0 <= k < l < places.len() implies #[trigger] places[k]
                < #[trigger] places[l] by {
                assert(0 <= found[l - 1]);
                if k > 0 {
                    assert(found[k - 1] < found[l - 1]);
                }
            }
            assert(are_places_of(part, s, places));
        } else {
            lemma_places_of_subsequence(part, rest);
            let found = choose|places: Seq<int>| #[trigger] are_places_of(part, rest, places);
            let places = Seq::new(part.len(), |k: int| found[k] + 1);
            assert forall|k: int| 0 <= k < places.len() implies 0 <= #[trigger] places[k] < s.len()
                && s[places[k]] == part[k] by {
                assert(0 <= found[k] < rest.len());
                assert(rest[found[k]] == part[k]);
            }
            assert forall|k: int, l: int| 0 <= k < l < places.len() implies #[trigger] places[k]
                < #[trigger] places[l] by {
                assert(found[k] < found[l]);
            }
            assert(are_places_of(part, s, places));
        }
    }
}

proof fn lemma_subsequence_of_places(part: Seq<char>, s: Seq<char>, places: Seq<int>)
    requires
        are_places_of(part, s, places),
    ensures
        is_subsequence(part, s),
    decreases s.len(),
{
    if part.len() > 0 {
        assert(0 <= places[0] < s.len());
        let rest = s.skip(1);
        if s[0] == part[0] {
            let tail = part.skip(1);
            let later = Seq::new(tail.len(), |k: int| places[k + 1] - 1);
            assert forall|k: int| 0 <= k < later.len() implies 0 <= #[trigger] later[k]
                < rest.len() && rest[later[k]] == tail[k] by {
                assert(places[0] < places[k + 1]);
                assert(s[places[k + 1]] == part[k + 1]);
            }
            assert forall|k: int, l: int| 0 <= k < l < later.len() implies #[trigger] later[k]
                < #[trigger] later[l] by {
                assert(places[k + 1] < places[l + 1]);
            }
            lemma_subsequence_of_places(tail, rest, later);
        } else {
            assert(s[places[0]] == part[0]);
            let later = Seq::new(part.len(), |k: int| places[k] - 1);
            assert forall|k: int| 0 <= k < later.len() implies 0 <= #[trigger] later[k]
                < rest.len() && rest[later[k]] == part[k] by {
                if k > 0 {
                    assert(places[0] < places[k]);
                }
                assert(s[places[k]] == part[k]);
            }
            assert forall|k: int, l: int| 0 <= k < l < later.len() implies #[trigger] later[k]
                < #[trigger] later[l] by {
                assert(places[k] < places[l]);
            }
            lemma_subsequence_of_places(part, rest, later);
        }
    }
}

} // verus!
