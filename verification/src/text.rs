//! Character-level text helpers: searching, trimming, number parsing and string building.
//!
//! Text is handled as a slice of `char`, which is what the view of a `str` is made of, so every
//! function here is specified over `Seq<char>`.

use vstd::prelude::*;
use vstd::slice::slice_subrange;
use vstd::string::StringExecFns;

verus! {

/// `String::push` appends one character at the end of the string.
pub assume_specification[ String::push ](s: &mut String, c: char)
    ensures
        final(s)@ == old(s)@.push(c),
;

/// The characters with the Unicode property `White_Space`.
pub open spec fn is_white(c: char) -> bool {
    ||| '\u{9}' <= c <= '\u{d}'
    ||| c == ' '
    ||| c == '\u{85}'
    ||| c == '\u{a0}'
    ||| c == '\u{1680}'
    ||| '\u{2000}' <= c <= '\u{200a}'
    ||| c == '\u{2028}'
    ||| c == '\u{2029}'
    ||| c == '\u{202f}'
    ||| c == '\u{205f}'
    ||| c == '\u{3000}'
}

/// Whether `c` is a decimal digit of ASCII.
pub open spec fn is_digit(c: char) -> bool {
    '0' <= c <= '9'
}

/// The position of the first `c` in `s`.
pub open spec fn first_of(s: Seq<char>, c: char) -> Option<int>
    decreases s.len(),
{
    if s.len() == 0 {
        None
    } else if s[0] == c {
        Some(0)
    } else {
        match first_of(s.drop_first(), c) {
            Some(i) => Some(i + 1),
            None => None,
        }
    }
}

/// The position of the last `c` in `s`.
pub open spec fn last_of(s: Seq<char>, c: char) -> Option<int>
    decreases s.len(),
{
    if s.len() == 0 {
        None
    } else if s.last() == c {
        Some(s.len() - 1)
    } else {
        last_of(s.drop_last(), c)
    }
}

/// `s` without the whitespace at its start.
pub open spec fn trim_start_of(s: Seq<char>) -> Seq<char>
    decreases s.len(),
{
    if s.len() > 0 && is_white(s[0]) {
        trim_start_of(s.drop_first())
    } else {
        s
    }
}

/// `s` without the whitespace at its end.
pub open spec fn trim_end_of(s: Seq<char>) -> Seq<char>
    decreases s.len(),
{
    if s.len() > 0 && is_white(s.last()) {
        trim_end_of(s.drop_last())
    } else {
        s
    }
}

/// `s` without the whitespace at either end.
pub open spec fn trim_of(s: Seq<char>) -> Seq<char> {
    trim_end_of(trim_start_of(s))
}

/// The number that a sequence of decimal digits denotes.
pub open spec fn digits_value(s: Seq<char>) -> nat
    decreases s.len(),
{
    if s.len() == 0 {
        0
    } else {
        10 * digits_value(s.drop_last()) + (s.last() as nat - '0' as nat) as nat
    }
}

/// Whether `s` consists of one or more decimal digits.
pub open spec fn is_number(s: Seq<char>) -> bool {
    s.len() > 0 && forall|i: int| 0 <= i < s.len() ==> is_digit(#[trigger] s[i])
}

/// The integer that `s` writes in decimal, with an optional sign in front.
pub open spec fn integer_of(s: Seq<char>) -> Option<int> {
    if s.len() > 0 && s[0] == '-' {
        if is_number(s.drop_first()) {
            Some(-(digits_value(s.drop_first()) as int))
        } else {
            None
        }
    } else if s.len() > 0 && s[0] == '+' {
        if is_number(s.drop_first()) {
            Some(digits_value(s.drop_first()) as int)
        } else {
            None
        }
    } else if is_number(s) {
        Some(digits_value(s) as int)
    } else {
        None
    }
}

/// `integer_of` limited to what an `i64` holds.
pub open spec fn i64_of(s: Seq<char>) -> Option<i64> {
    match integer_of(s) {
        Some(v) => if i64::MIN <= v <= i64::MAX {
            Some(v as i64)
        } else {
            None
        },
        None => None,
    }
}

/// The decimal digits among the characters of `s`, in their order.
pub open spec fn digits_in(s: Seq<char>) -> Seq<char> {
    s.filter(|c: char| is_digit(c))
}

/// The pieces of `s` between the occurrences of `c`: one more than there are occurrences.
pub open spec fn split_of(s: Seq<char>, c: char) -> Seq<Seq<char>>
    decreases s.len(),
{
    if s.len() == 0 {
        seq![s]
    } else {
        let rest = split_of(s.drop_first(), c);
        if s[0] == c {
            seq![Seq::<char>::empty()] + rest
        } else {
            rest.update(0, seq![s[0]] + rest[0])
        }
    }
}

/// Whether `s` begins with `p`.
pub open spec fn starts_with_seq(s: Seq<char>, p: Seq<char>) -> bool {
    s.len() >= p.len() && s.subrange(0, p.len() as int) == p
}

/// Whether `s` ends with `p`.
pub open spec fn ends_with_seq(s: Seq<char>, p: Seq<char>) -> bool {
    s.len() >= p.len() && s.subrange(s.len() - p.len(), s.len() as int) == p
}

/// The ASCII lower-case form of one character.
pub open spec fn lower_char(c: char) -> char {
    if 'A' <= c <= 'Z' {
        (c as u32 + 32) as char
    } else {
        c
    }
}

/// `s` with its ASCII letters in lower case.
pub open spec fn lower_of(s: Seq<char>) -> Seq<char> {
    s.map_values(|c: char| lower_char(c))
}

pub proof fn lemma_first_of(s: Seq<char>, c: char, i: int)
    requires
        0 <= i < s.len(),
        s[i] == c,
        forall|j: int| 0 <= j < i ==> s[j] != c,
    ensures
        first_of(s, c) == Some(i),
    decreases s.len(),
{
    if i > 0 {
        assert(s[0] != c);
        assert forall|j: int| 0 <= j < i - 1 implies s.drop_first()[j] != c by {
            assert(s.drop_first()[j] == s[j + 1]);
        }
        lemma_first_of(s.drop_first(), c, i - 1);
    }
}

pub proof fn lemma_first_of_none(s: Seq<char>, c: char)
    requires
        forall|j: int| 0 <= j < s.len() ==> s[j] != c,
    ensures
        first_of(s, c) is None,
    decreases s.len(),
{
    if s.len() > 0 {
        assert forall|j: int| 0 <= j < s.len() - 1 implies s.drop_first()[j] != c by {
            assert(s.drop_first()[j] == s[j + 1]);
        }
        lemma_first_of_none(s.drop_first(), c);
    }
}

/// `first_of` names a position inside the text that holds the character.
pub proof fn lemma_first_of_bounds(s: Seq<char>, c: char)
    ensures
        first_of(s, c) matches Some(i) ==> 0 <= i < s.len() && s[i] == c,
    decreases s.len(),
{
    if s.len() > 0 && s[0] != c {
        lemma_first_of_bounds(s.drop_first(), c);
    }
}

pub proof fn lemma_last_of(s: Seq<char>, c: char, i: int)
    requires
        0 <= i < s.len(),
        s[i] == c,
        forall|j: int| i < j < s.len() ==> s[j] != c,
    ensures
        last_of(s, c) == Some(i),
    decreases s.len(),
{
    if i < s.len() - 1 {
        assert(s.last() != c);
        lemma_last_of(s.drop_last(), c, i);
    }
}

pub proof fn lemma_last_of_none(s: Seq<char>, c: char)
    requires
        forall|j: int| 0 <= j < s.len() ==> s[j] != c,
    ensures
        last_of(s, c) is None,
    decreases s.len(),
{
    if s.len() > 0 {
        lemma_last_of_none(s.drop_last(), c);
    }
}

/// `last_of` names a position inside the text that holds the character.
pub proof fn lemma_last_of_bounds(s: Seq<char>, c: char)
    ensures
        last_of(s, c) matches Some(i) ==> 0 <= i < s.len() && s[i] == c,
    decreases s.len(),
{
    if s.len() > 0 && s.last() != c {
        lemma_last_of_bounds(s.drop_last(), c);
    }
}

pub proof fn lemma_trim_start(s: Seq<char>, i: int)
    requires
        0 <= i <= s.len(),
        forall|j: int| 0 <= j < i ==> is_white(s[j]),
        i < s.len() ==> !is_white(s[i]),
    ensures
        trim_start_of(s) == s.subrange(i, s.len() as int),
    decreases s.len(),
{
    if i == 0 {
        assert(s.subrange(0, s.len() as int) =~= s);
    } else {
        assert(is_white(s[0]));
        assert forall|j: int| 0 <= j < i - 1 implies is_white(s.drop_first()[j]) by {
            assert(s.drop_first()[j] == s[j + 1]);
        }
        lemma_trim_start(s.drop_first(), i - 1);
        assert(s.drop_first().subrange(i - 1, s.len() - 1) =~= s.subrange(i, s.len() as int));
    }
}

pub proof fn lemma_trim_end(s: Seq<char>, i: int)
    requires
        0 <= i <= s.len(),
        forall|j: int| i <= j < s.len() ==> is_white(s[j]),
        i > 0 ==> !is_white(s[i - 1]),
    ensures
        trim_end_of(s) == s.subrange(0, i),
    decreases s.len(),
{
    if i == s.len() {
        assert(s.subrange(0, i) =~= s);
    } else {
        assert(is_white(s.last()));
        lemma_trim_end(s.drop_last(), i);
        assert(s.drop_last().subrange(0, i) =~= s.subrange(0, i));
    }
}

/// Trimming never makes a text longer.
pub proof fn lemma_trim_start_len(s: Seq<char>)
    ensures
        trim_start_of(s).len() <= s.len(),
    decreases s.len(),
{
    if s.len() > 0 && is_white(s[0]) {
        lemma_trim_start_len(s.drop_first());
    }
}

/// Trimming the start brings in no character, and leaves no whitespace there.
pub proof fn lemma_trim_start_keeps(s: Seq<char>, c: char)
    ensures
        trim_start_of(s).contains(c) ==> s.contains(c),
        trim_start_of(s).len() > 0 ==> !is_white(trim_start_of(s)[0]),
    decreases s.len(),
{
    if s.len() > 0 && is_white(s[0]) {
        let t = s.drop_first();
        lemma_trim_start_keeps(t, c);
        if t.contains(c) {
            let k = choose|k: int| 0 <= k < t.len() && t[k] == c;
            assert(s[k + 1] == c);
        }
    }
}

/// Trimming the end brings in no character, leaves no whitespace there, and does not touch the start.
pub proof fn lemma_trim_end_keeps(s: Seq<char>, c: char)
    ensures
        trim_end_of(s).contains(c) ==> s.contains(c),
        trim_end_of(s).len() > 0 ==> s.len() > 0 && trim_end_of(s)[0] == s[0] && !is_white(
            trim_end_of(s).last(),
        ),
    decreases s.len(),
{
    if s.len() > 0 && is_white(s.last()) {
        let t = s.drop_last();
        lemma_trim_end_keeps(t, c);
        if t.contains(c) {
            let k = choose|k: int| 0 <= k < t.len() && t[k] == c;
            assert(s[k] == c);
        }
    }
}

/// A trimmed text holds no character that the text did not hold, and has nothing left to trim.
pub proof fn lemma_trim(s: Seq<char>, c: char)
    ensures
        trim_of(s).contains(c) ==> s.contains(c),
        trim_of(trim_of(s)) == trim_of(s),
{
    lemma_trim_start_keeps(s, c);
    lemma_trim_end_keeps(trim_start_of(s), c);
    let t = trim_of(s);
    assert(trim_start_of(t) == t);
    assert(trim_end_of(t) == t);
}

/// No piece of a split holds the separator.
pub proof fn lemma_split_pieces(s: Seq<char>, c: char)
    ensures
        forall|i: int| 0 <= i < split_of(s, c).len() ==> !(#[trigger] split_of(s, c)[i]).contains(c),
    decreases s.len(),
{
    if s.len() > 0 {
        let rest = split_of(s.drop_first(), c);
        lemma_split_pieces(s.drop_first(), c);
        lemma_split_nonempty(s.drop_first(), c);
        assert forall|i: int| 0 <= i < split_of(s, c).len() implies !(#[trigger] split_of(
            s,
            c,
        )[i]).contains(c) by {
            let piece = split_of(s, c)[i];
            if s[0] == c {
                if i > 0 {
                    assert(piece == rest[i - 1]);
                }
            } else if i > 0 {
                assert(piece == rest[i]);
            } else {
                assert(!rest[0].contains(c));
                if piece.contains(c) {
                    let k = choose|k: int| 0 <= k < piece.len() && piece[k] == c;
                    assert(rest[0][k - 1] == c);
                }
            }
        }
    }
}

/// A split has at least one piece.
pub proof fn lemma_split_nonempty(s: Seq<char>, c: char)
    ensures
        split_of(s, c).len() > 0,
    decreases s.len(),
{
    if s.len() > 0 {
        lemma_split_nonempty(s.drop_first(), c);
    }
}

/// Splitting at the first separator: what stands before it is the first piece.
pub proof fn lemma_split_at(s: Seq<char>, c: char, i: int)
    requires
        0 <= i < s.len(),
        s[i] == c,
        forall|j: int| 0 <= j < i ==> s[j] != c,
    ensures
        split_of(s, c) == seq![s.subrange(0, i)] + split_of(s.subrange(i + 1, s.len() as int), c),
    decreases s.len(),
{
    if i == 0 {
        assert(s.subrange(0, 0) =~= Seq::<char>::empty());
        assert(s.subrange(1, s.len() as int) =~= s.drop_first());
    } else {
        let t = s.drop_first();
        assert forall|j: int| 0 <= j < i - 1 implies t[j] != c by {
            assert(t[j] == s[j + 1]);
        }
        assert(t[i - 1] == s[i]);
        lemma_split_at(t, c, i - 1);
        assert(s[0] != c);
        let rest = split_of(t, c);
        assert(t.subrange(i, t.len() as int) =~= s.subrange(i + 1, s.len() as int));
        assert(seq![s[0]] + t.subrange(0, i - 1) =~= s.subrange(0, i));
        assert(rest.update(0, seq![s[0]] + rest[0]) =~= seq![s.subrange(0, i)] + split_of(
            s.subrange(i + 1, s.len() as int),
            c,
        ));
    }
}

/// Without a separator the whole text is the only piece.
pub proof fn lemma_split_none(s: Seq<char>, c: char)
    requires
        forall|j: int| 0 <= j < s.len() ==> s[j] != c,
    ensures
        split_of(s, c) == seq![s],
    decreases s.len(),
{
    if s.len() > 0 {
        let t = s.drop_first();
        assert forall|j: int| 0 <= j < t.len() implies t[j] != c by {
            assert(t[j] == s[j + 1]);
        }
        lemma_split_none(t, c);
        assert(seq![s[0]] + t =~= s);
        assert(seq![t].update(0, seq![s[0]] + t) =~= seq![s]);
    }
}

/// Whether `c` has the Unicode property `White_Space`.
pub fn is_whitespace(c: char) -> (r: bool)
    ensures
        r == is_white(c),
{
    ('\u{9}' <= c && c <= '\u{d}') || c == ' ' || c == '\u{85}' || c == '\u{a0}' || c == '\u{1680}'
        || ('\u{2000}' <= c && c <= '\u{200a}') || c == '\u{2028}' || c == '\u{2029}' || c
        == '\u{202f}' || c == '\u{205f}' || c == '\u{3000}'
}

/// The characters of a string.
pub fn chars_of(s: &str) -> (r: Vec<char>)
    ensures
        r@ == s@,
{
    let mut r: Vec<char> = Vec::new();
    for c in it: s.chars()
        invariant
            it.seq() == s@,
            r@ == s@.take(it.index()),
    {
        proof {
            assert(s@.take(it.index() + 1) =~= s@.take(it.index()).push(s@[it.index()]));
        }
        r.push(c);
    }
    proof {
        assert(s@.take(s@.len() as int) =~= s@);
    }
    r
}

/// The string made of the given characters.
pub fn string_of(s: &[char]) -> (r: String)
    ensures
        r@ == s@,
{
    let mut r = String::new();
    let mut i: usize = 0;
    while i < s.len()
        invariant
            i <= s@.len(),
            r@ == s@.take(i as int),
        decreases s@.len() - i,
    {
        proof {
            assert(s@.take(i + 1) =~= s@.take(i as int).push(s@[i as int]));
        }
        r.push(s[i]);
        i = i + 1;
    }
    proof {
        assert(s@.take(s@.len() as int) =~= s@);
    }
    r
}

/// Whether two strings hold the same characters.
pub fn str_eq(a: &str, b: &str) -> (r: bool)
    ensures
        r == (a@ == b@),
{
    let x = chars_of(a);
    let y = chars_of(b);
    slice_eq(x.as_slice(), y.as_slice())
}

/// The view of an optional string.
pub open spec fn opt_view(s: Option<String>) -> Option<Seq<char>> {
    match s {
        Some(t) => Some(t@),
        None => None,
    }
}

/// Whether two optional strings are both absent or hold the same characters.
pub fn opt_eq(a: &Option<String>, b: &Option<String>) -> (r: bool)
    ensures
        r == (opt_view(*a) == opt_view(*b)),
{
    match (a, b) {
        (Some(x), Some(y)) => str_eq(x.as_str(), y.as_str()),
        (None, None) => true,
        _ => false,
    }
}

/// A copy of an optional string.
pub fn opt_clone(a: &Option<String>) -> (r: Option<String>)
    ensures
        r == *a,
{
    match a {
        Some(x) => Some(x.clone()),
        None => None,
    }
}

/// Whether two runs of characters are equal.
pub fn slice_eq(a: &[char], b: &[char]) -> (r: bool)
    ensures
        r == (a@ == b@),
{
    if a.len() != b.len() {
        return false;
    }
    let mut i: usize = 0;
    while i < a.len()
        invariant
            i <= a@.len(),
            a@.len() == b@.len(),
            forall|j: int| 0 <= j < i ==> a@[j] == b@[j],
        decreases a@.len() - i,
    {
        if a[i] != b[i] {
            return false;
        }
        i = i + 1;
    }
    proof {
        assert(a@ =~= b@);
    }
    true
}

/// The position of the first `c`.
pub fn find_char(s: &[char], c: char) -> (r: Option<usize>)
    ensures
        r matches Some(i) ==> i < s@.len() && s@[i as int] == c && first_of(s@, c) == Some(i as int)
            && forall|j: int| 0 <= j < i ==> s@[j] != c,
        r is None ==> first_of(s@, c) is None && forall|j: int| 0 <= j < s@.len() ==> s@[j] != c,
{
    let mut i: usize = 0;
    while i < s.len()
        invariant
            i <= s@.len(),
            forall|j: int| 0 <= j < i ==> s@[j] != c,
        decreases s@.len() - i,
    {
        if s[i] == c {
            proof {
                lemma_first_of(s@, c, i as int);
            }
            return Some(i);
        }
        i = i + 1;
    }
    proof {
        lemma_first_of_none(s@, c);
    }
    None
}

/// The position of the last `c`.
pub fn rfind_char(s: &[char], c: char) -> (r: Option<usize>)
    ensures
        r matches Some(i) ==> i < s@.len() && s@[i as int] == c && last_of(s@, c) == Some(i as int),
        r is None ==> last_of(s@, c) is None,
{
    let mut i: usize = s.len();
    while i > 0
        invariant
            i <= s@.len(),
            forall|j: int| i <= j < s@.len() ==> s@[j] != c,
        decreases i,
    {
        if s[i - 1] == c {
            proof {
                lemma_last_of(s@, c, i - 1);
            }
            return Some(i - 1);
        }
        i = i - 1;
    }
    proof {
        lemma_last_of_none(s@, c);
    }
    None
}

/// The text without leading whitespace.
pub fn trim_start(s: &[char]) -> (r: &[char])
    ensures
        r@ == trim_start_of(s@),
{
    let mut i: usize = 0;
    while i < s.len() && is_whitespace(s[i])
        invariant
            i <= s@.len(),
            forall|j: int| 0 <= j < i ==> is_white(s@[j]),
        decreases s@.len() - i,
    {
        i = i + 1;
    }
    proof {
        lemma_trim_start(s@, i as int);
    }
    slice_subrange(s, i, s.len())
}

/// The text without trailing whitespace.
pub fn trim_end(s: &[char]) -> (r: &[char])
    ensures
        r@ == trim_end_of(s@),
{
    let mut i: usize = s.len();
    while i > 0 && is_whitespace(s[i - 1])
        invariant
            i <= s@.len(),
            forall|j: int| i <= j < s@.len() ==> is_white(s@[j]),
        decreases i,
    {
        i = i - 1;
    }
    proof {
        lemma_trim_end(s@, i as int);
    }
    slice_subrange(s, 0, i)
}

/// The text without whitespace at either end.
pub fn trim(s: &[char]) -> (r: &[char])
    ensures
        r@ == trim_of(s@),
{
    trim_end(trim_start(s))
}

/// Whether the text begins with the prefix.
pub fn starts_with(s: &[char], p: &[char]) -> (r: bool)
    ensures
        r == starts_with_seq(s@, p@),
{
    if s.len() < p.len() {
        return false;
    }
    slice_eq(slice_subrange(s, 0, p.len()), p)
}

/// Whether the text ends with the suffix.
pub fn ends_with(s: &[char], p: &[char]) -> (r: bool)
    ensures
        r == ends_with_seq(s@, p@),
{
    if s.len() < p.len() {
        return false;
    }
    slice_eq(slice_subrange(s, s.len() - p.len(), s.len()), p)
}

/// The value of a run of digits, unless it exceeds 2^63.
fn parse_digits(s: &[char]) -> (r: Option<u64>)
    ensures
        r matches Some(v) ==> is_number(s@) && digits_value(s@) == v && v <= 0x8000_0000_0000_0000,
        r is None ==> !is_number(s@) || digits_value(s@) > 0x8000_0000_0000_0000,
{
    if s.len() == 0 {
        return None;
    }
    let mut acc: u64 = 0;
    let mut over = false;
    let mut i: usize = 0;
    proof {
        assert(s@.take(0) =~= Seq::<char>::empty());
    }
    while i < s.len()
        invariant
            i <= s@.len(),
            s@.len() > 0,
            forall|j: int| 0 <= j < i ==> is_digit(#[trigger] s@[j]),
            !over ==> digits_value(s@.take(i as int)) == acc && acc <= 0x8000_0000_0000_0000,
            over ==> digits_value(s@.take(i as int)) > 0x8000_0000_0000_0000,
        decreases s@.len() - i,
    {
        let c = s[i];
        if !('0' <= c && c <= '9') {
            assert(!is_digit(s@[i as int]));
            return None;
        }
        let d: u64 = (c as u32 - '0' as u32) as u64;
        proof {
            let t = s@.take(i + 1);
            assert(t.drop_last() =~= s@.take(i as int));
            assert(t.last() == c);
        }
        if !over {
            if acc > 0x0ccc_cccc_cccc_cccc {
                over = true;
            } else {
                let next: u64 = acc * 10 + d;
                if next > 0x8000_0000_0000_0000 {
                    over = true;
                } else {
                    acc = next;
                }
            }
        }
        i = i + 1;
    }
    proof {
        assert(s@.take(s@.len() as int) =~= s@);
    }
    if over {
        None
    } else {
        Some(acc)
    }
}

/// Reads a decimal integer with an optional sign.
pub fn parse_i64(s: &[char]) -> (r: Option<i64>)
    ensures
        r == i64_of(s@),
{
    if s.len() > 0 && s[0] == '-' {
        let rest = slice_subrange(s, 1, s.len());
        proof {
            assert(rest@ =~= s@.drop_first());
        }
        match parse_digits(rest) {
            Some(v) => Some((0 - v as i128) as i64),
            None => None,
        }
    } else if s.len() > 0 && s[0] == '+' {
        let rest = slice_subrange(s, 1, s.len());
        proof {
            assert(rest@ =~= s@.drop_first());
        }
        match parse_digits(rest) {
            Some(v) => if v <= 0x7fff_ffff_ffff_ffff {
                Some(v as i64)
            } else {
                None
            },
            None => None,
        }
    } else {
        match parse_digits(s) {
            Some(v) => if v <= 0x7fff_ffff_ffff_ffff {
                Some(v as i64)
            } else {
                None
            },
            None => None,
        }
    }
}

/// Collects the decimal digits of a text.
pub fn digits_only(s: &[char]) -> (r: Vec<char>)
    ensures
        r@ == digits_in(s@),
{
    let mut r: Vec<char> = Vec::new();
    let mut i: usize = 0;
    let ghost p = |c: char| is_digit(c);
    proof {
        reveal(Seq::filter);
        assert(s@.take(0) =~= Seq::<char>::empty());
    }
    while i < s.len()
        invariant
            i <= s@.len(),
            p == |c: char| is_digit(c),
            r@ == s@.take(i as int).filter(p),
        decreases s@.len() - i,
    {
        let c = s[i];
        proof {
            reveal(Seq::filter);
            let t = s@.take(i + 1);
            assert(t.drop_last() =~= s@.take(i as int));
            assert(t.last() == c);
        }
        if '0' <= c && c <= '9' {
            r.push(c);
        }
        i = i + 1;
    }
    proof {
        assert(s@.take(s@.len() as int) =~= s@);
    }
    r
}

/// The text with its ASCII letters in lower case.
pub fn to_lower(s: &[char]) -> (r: Vec<char>)
    ensures
        r@ == lower_of(s@),
{
    let mut r: Vec<char> = Vec::new();
    let mut i: usize = 0;
    while i < s.len()
        invariant
            i <= s@.len(),
            r@.len() == i,
            forall|j: int| 0 <= j < i ==> r@[j] == lower_char(s@[j]),
        decreases s@.len() - i,
    {
        let c = s[i];
        if 'A' <= c && c <= 'Z' {
            let low: u8 = c as u8 + 32;
            proof {
                assert(low as char == lower_char(c));
            }
            r.push(low as char);
        } else {
            r.push(c);
        }
        i = i + 1;
    }
    proof {
        assert(r@ =~= lower_of(s@));
    }
    r
}

/// Whether a character separates the parts of a path.
pub open spec fn is_separator(c: char) -> bool {
    c == '/' || c == '\\'
}

/// Whether a character separates the parts of a path.
pub fn separates(c: char) -> (r: bool)
    ensures
        r == is_separator(c),
{
    c == '/' || c == '\\'
}

/// The character of a digit below 16, with the letters in lower case.
pub open spec fn digit_char(d: nat) -> char {
    if d < 10 {
        ('0' as u32 + d) as char
    } else {
        ('a' as u32 + (d - 10)) as char
    }
}

/// A number written in the given base, without leading zeros.
pub open spec fn radix_of(n: nat, base: nat) -> Seq<char>
    decreases n,
{
    if base < 2 || n < base {
        seq![digit_char(n)]
    } else {
        proof {
            assert(n / base < n) by (nonlinear_arith)
                requires
                    n >= base,
                    base >= 2,
            ;
        }
        radix_of(n / base, base).push(digit_char(n % base))
    }
}

/// A number in decimal.
pub open spec fn decimal_of(n: nat) -> Seq<char> {
    radix_of(n, 10)
}

/// A number in decimal has a digit, and nothing but digits.
pub proof fn lemma_decimal_digits(n: nat)
    ensures
        decimal_of(n).len() > 0,
        forall|i: int| 0 <= i < decimal_of(n).len() ==> '0' <= #[trigger] decimal_of(n)[i] <= '9',
    decreases n,
{
    if n >= 10 {
        lemma_decimal_digits(n / 10);
    }
}

/// No two numbers have the same decimal.
pub proof fn lemma_decimal_injective(a: nat, b: nat)
    requires
        decimal_of(a) == decimal_of(b),
    ensures
        a == b,
    decreases a,
{
    let s = decimal_of(a);
    let t = decimal_of(b);
    assert(s.last() == digit_char(a % 10));
    assert(t.last() == digit_char(b % 10));
    if a >= 10 && b >= 10 {
        assert(s.drop_last() =~= decimal_of(a / 10));
        assert(t.drop_last() =~= decimal_of(b / 10));
        lemma_decimal_injective(a / 10, b / 10);
    } else if a >= 10 {
        lemma_decimal_digits(a / 10);
        assert(s.len() > 1 && t.len() == 1);
    } else if b >= 10 {
        lemma_decimal_digits(b / 10);
        assert(t.len() > 1 && s.len() == 1);
    }
}

/// An integer in decimal, with a sign where it is negative.
pub open spec fn signed_of(n: int) -> Seq<char> {
    if n < 0 {
        "-"@ + decimal_of((-n) as nat)
    } else {
        decimal_of(n as nat)
    }
}

/// A number in hexadecimal.
pub open spec fn hex_of(n: nat) -> Seq<char> {
    radix_of(n, 16)
}

/// `s` with zeros in front, up to the given width.
pub open spec fn zero_padded(s: Seq<char>, width: nat) -> Seq<char> {
    if s.len() >= width {
        s
    } else {
        Seq::new((width - s.len()) as nat, |i: int| '0') + s
    }
}

/// Whether `p` occurs in `s`.
pub open spec fn contains_seq(s: Seq<char>, p: Seq<char>) -> bool {
    exists|i: int| 0 <= i <= s.len() - p.len() && #[trigger] s.subrange(i, i + p.len()) == p
}

/// The character of a digit below 16.
fn digit(d: u64) -> (c: char)
    requires
        d < 16,
    ensures
        c == digit_char(d as nat),
{
    if d < 10 {
        (48u8 + d as u8) as char
    } else {
        (97u8 + (d - 10) as u8) as char
    }
}

/// Appends a number in the given base.
fn push_radix(s: &mut String, n: u64, base: u64)
    requires
        2 <= base <= 16,
    ensures
        final(s)@ == old(s)@ + radix_of(n as nat, base as nat),
    decreases n,
{
    if n < base {
        let c = digit(n);
        proof {
            assert(s@.push(c) =~= s@ + radix_of(n as nat, base as nat));
        }
        s.push(c);
    } else {
        let ghost before = s@;
        proof {
            assert(n / base < n) by (nonlinear_arith)
                requires
                    n >= base,
                    base >= 2,
            ;
        }
        push_radix(s, n / base, base);
        let c = digit(n % base);
        proof {
            let head = radix_of(n as nat / base as nat, base as nat);
            assert((before + head).push(c) =~= before + head.push(c));
        }
        s.push(c);
    }
}

/// Appends a number in decimal.
pub fn push_decimal(s: &mut String, n: u64)
    ensures
        final(s)@ == old(s)@ + decimal_of(n as nat),
{
    push_radix(s, n, 10)
}

/// Appends an integer in decimal.
pub fn push_signed(s: &mut String, n: i64)
    ensures
        final(s)@ == old(s)@ + signed_of(n as int),
{
    if n < 0 {
        let ghost before = s@;
        proof {
            reveal_strlit("-");
            assert(before.push('-') =~= before + "-"@);
        }
        s.push('-');
        let m: u64 = (0 - n as i128) as u64;
        proof {
            assert((before + "-"@) + decimal_of(m as nat) =~= before + ("-"@ + decimal_of(m as nat)));
        }
        push_radix(s, m, 10);
    } else {
        push_radix(s, n as u64, 10);
    }
}

/// A number in decimal.
pub fn decimal(n: u64) -> (r: String)
    ensures
        r@ == decimal_of(n as nat),
{
    let mut r = String::new();
    proof {
        assert(Seq::<char>::empty() + decimal_of(n as nat) =~= decimal_of(n as nat));
    }
    push_radix(&mut r, n, 10);
    r
}

/// Appends a number in hexadecimal.
pub fn push_hex(s: &mut String, n: u64)
    ensures
        final(s)@ == old(s)@ + hex_of(n as nat),
{
    push_radix(s, n, 16)
}

pub proof fn lemma_hex_len(n: nat, k: nat)
    requires
        n < vstd::arithmetic::power::pow(16, k),
        k > 0,
    ensures
        0 < hex_of(n).len() <= k,
    decreases k,
{
    if n >= 16 {
        vstd::arithmetic::power::lemma_pow1(16);
        if k > 1 {
            vstd::arithmetic::power::lemma_pow_adds(16, (k - 1) as nat, 1);
            assert(n / 16 < vstd::arithmetic::power::pow(16, (k - 1) as nat));
            lemma_hex_len(n / 16, (k - 1) as nat);
        }
    }
}

/// A number as 16 hexadecimal digits.
pub fn hex16(n: u64) -> (r: String)
    ensures
        r@ == zero_padded(hex_of(n as nat), 16),
        r@.len() == 16,
{
    let mut digits = String::new();
    push_radix(&mut digits, n, 16);
    proof {
        assert(Seq::<char>::empty() + hex_of(n as nat) =~= hex_of(n as nat));
        assert(n < vstd::arithmetic::power::pow(16, 16)) by {
            reveal(vstd::arithmetic::power::pow);
            reveal_with_fuel(vstd::arithmetic::power::pow, 17);
            assert(vstd::arithmetic::power::pow(16, 16) == 0x1_0000_0000_0000_0000);
        }
        lemma_hex_len(n as nat, 16);
    }
    let len: usize = chars_of(digits.as_str()).len();
    let mut r = String::new();
    let mut k: usize = len;
    while k < 16
        invariant
            len <= k <= 16,
            r@ =~= Seq::new((k - len) as nat, |i: int| '0'),
        decreases 16 - k,
    {
        r.push('0');
        k = k + 1;
    }
    r.append(digits.as_str());
    proof {
        assert(r@ =~= zero_padded(hex_of(n as nat), 16));
    }
    r
}

/// Whether the second text occurs in the first.
pub fn contains(s: &[char], p: &[char]) -> (r: bool)
    ensures
        r == contains_seq(s@, p@),
{
    if s.len() < p.len() {
        return false;
    }
    let n: usize = s.len();
    let m: usize = p.len();
    let mut i: usize = 0;
    while i <= n - m
        invariant
            n == s@.len(),
            m == p@.len(),
            m <= n,
            i <= n - m + 1,
            forall|j: int| 0 <= j < i ==> #[trigger] s@.subrange(j, j + m) != p@,
        decreases n - m + 1 - i,
    {
        if slice_eq(slice_subrange(s, i, i + m), p) {
            return true;
        }
        if i == n - m {
            return false;
        }
        i = i + 1;
    }
    false
}

/// A digit in front of others counts ten times as much as they: reading works from the left, in tens.
pub proof fn law_digits_count_in_tens(s: Seq<char>, d: nat)
    requires
        d < 10,
    ensures
        digits_value(Seq::<char>::empty()) == 0,
        digits_value(s.push(('0' as u32 + d) as char)) == 10 * digits_value(s) + d,
{
    let c = ('0' as u32 + d) as char;
    assert(s.push(c).drop_last() =~= s);
}

/// A number is written in tens: one digit for what is below ten, and otherwise the digit of what is
/// left over behind the digits of the tens.
pub proof fn law_numbers_are_written_in_tens(n: nat, d: nat)
    requires
        d < 10,
    ensures
        decimal_of(d) == seq![('0' as u32 + d) as char],
        n > 0 ==> decimal_of(10 * n + d) == decimal_of(n).push(('0' as u32 + d) as char),
{
    if n > 0 {
        let m = 10 * n + d;
        assert(m / 10 == n);
        assert(m % 10 == d);
    }
}

/// What is written as a number reads as that number.
pub proof fn law_numbers_read_back(n: nat)
    ensures
        digits_value(decimal_of(n)) == n,
        is_number(decimal_of(n)),
        n <= i64::MAX ==> i64_of(decimal_of(n)) == Some(n as i64),
    decreases n,
{
    lemma_decimal_digits(n);
    let s = decimal_of(n);
    assert(is_digit(s[0]));
    if n >= 10 {
        law_numbers_read_back(n / 10);
        assert(s.drop_last() =~= decimal_of(n / 10));
        assert(s.last() as nat - '0' as nat == n % 10);
        assert(digits_value(s) == 10 * digits_value(decimal_of(n / 10)) + n % 10);
    } else {
        assert(s.drop_last() =~= Seq::<char>::empty());
        assert(digits_value(Seq::<char>::empty()) == 0);
        assert(digits_value(s) == n);
    }
}

/// A sign in front makes a number negative or changes nothing; a text with anything but digits behind
/// the sign is no number.
pub proof fn law_signs(n: int, s: Seq<char>)
    ensures
        i64::MIN <= n <= i64::MAX ==> i64_of(signed_of(n)) == Some(n as i64),
        0 <= n <= i64::MAX ==> i64_of(seq!['+'] + decimal_of(n as nat)) == Some(n as i64),
        (exists|i: int| 1 <= i < s.len() && !is_digit(#[trigger] s[i])) ==> i64_of(s) is None,
        s.len() == 0 ==> i64_of(s) is None,
{
    reveal_strlit("-");
    if n < 0 {
        let m = (-n) as nat;
        law_numbers_read_back(m);
        let t = signed_of(n);
        assert(t[0] == '-');
        assert(t.drop_first() =~= decimal_of(m));
    } else {
        law_numbers_read_back(n as nat);
        let t = seq!['+'] + decimal_of(n as nat);
        assert(t[0] == '+');
        assert(t.drop_first() =~= decimal_of(n as nat));
    }
    if exists|i: int| 1 <= i < s.len() && !is_digit(#[trigger] s[i]) {
        let i = choose|i: int| 1 <= i < s.len() && !is_digit(#[trigger] s[i]);
        assert(s.drop_first()[i - 1] == s[i]);
    }
}

/// Trimming takes whitespace off both ends and nothing else.
pub proof fn law_trim_takes_whitespace_only(a: Seq<char>, s: Seq<char>, b: Seq<char>)
    requires
        forall|i: int| 0 <= i < a.len() ==> is_white(#[trigger] a[i]),
        forall|i: int| 0 <= i < b.len() ==> is_white(#[trigger] b[i]),
        s.len() > 0,
        !is_white(s[0]),
        !is_white(s.last()),
    ensures
        trim_of(a + s + b) == s,
        trim_start_of(a + s) == s,
{
    let t = a + s + b;
    assert forall|j: int| 0 <= j < a.len() implies is_white(t[j]) by {
        assert(t[j] == a[j]);
    }
    assert(t[a.len() as int] == s[0]);
    lemma_trim_start(t, a.len() as int);
    let u = s + b;
    assert(t.subrange(a.len() as int, t.len() as int) =~= u);
    assert forall|j: int| s.len() <= j < u.len() implies is_white(u[j]) by {
        assert(u[j] == b[j - s.len()]);
    }
    lemma_trim_end(u, s.len() as int);
    assert(u.subrange(0, s.len() as int) =~= s);
    let v = a + s;
    assert forall|j: int| 0 <= j < a.len() implies is_white(v[j]) by {
        assert(v[j] == a[j]);
    }
    assert(v[a.len() as int] == s[0]);
    lemma_trim_start(v, a.len() as int);
    assert(v.subrange(a.len() as int, v.len() as int) =~= s);
}

/// A text of nothing but whitespace trims to nothing.
pub proof fn law_blank_trims_to_nothing(s: Seq<char>)
    requires
        forall|i: int| 0 <= i < s.len() ==> is_white(#[trigger] s[i]),
    ensures
        trim_of(s).len() == 0,
{
    lemma_trim_start(s, s.len() as int);
    assert(s.subrange(s.len() as int, s.len() as int) =~= Seq::<char>::empty());
}

/// Blank, tabulator, line ends and the blanks of other scripts are whitespace; letters, digits and
/// marks are not.
pub proof fn law_whitespace(c: char)
    ensures
        is_white(c) <==> c == ' ' || c == '\t' || c == '\n' || c == '\u{b}' || c == '\u{c}' || c
            == '\r' || c == '\u{85}' || c == '\u{a0}' || c == '\u{1680}' || '\u{2000}' <= c
            <= '\u{200a}' || c == '\u{2028}' || c == '\u{2029}' || c == '\u{202f}' || c == '\u{205f}'
            || c == '\u{3000}',
        is_digit(c) <==> c == '0' || c == '1' || c == '2' || c == '3' || c == '4' || c == '5' || c
            == '6' || c == '7' || c == '8' || c == '9',
        is_separator(c) <==> c == '/' || c == '\\',
{
}

/// The pieces of a split, put together with the separator between them, give the text again.
pub open spec fn rejoined(pieces: Seq<Seq<char>>, c: char) -> Seq<char>
    decreases pieces.len(),
{
    if pieces.len() == 0 {
        Seq::empty()
    } else if pieces.len() == 1 {
        pieces[0]
    } else {
        pieces[0].push(c) + rejoined(pieces.drop_first(), c)
    }
}

/// A split loses nothing: its pieces, put together again, are the text, and none of them holds the
/// separator.
pub proof fn law_split_loses_nothing(s: Seq<char>, c: char)
    ensures
        rejoined(split_of(s, c), c) == s,
        split_of(s, c).len() > 0,
        forall|i: int| 0 <= i < split_of(s, c).len() ==> !(#[trigger] split_of(s, c)[i]).contains(c),
    decreases s.len(),
{
    lemma_split_pieces(s, c);
    lemma_split_nonempty(s, c);
    if s.len() > 0 {
        let t = s.drop_first();
        law_split_loses_nothing(t, c);
        let rest = split_of(t, c);
        let all = split_of(s, c);
        if s[0] == c {
            assert(all.drop_first() =~= rest);
            assert(all[0] =~= Seq::<char>::empty());
            assert(all[0].push(c) + t =~= s);
        } else {
            assert(all[0] == seq![s[0]] + rest[0]);
            if rest.len() == 1 {
                assert(rejoined(rest, c) == rest[0]);
                assert(all[0] =~= s);
            } else {
                assert(all.drop_first() =~= rest.drop_first());
                assert(all[0].push(c) + rejoined(rest.drop_first(), c) =~= seq![s[0]] + (
                rest[0].push(c) + rejoined(rest.drop_first(), c)));
                assert(seq![s[0]] + t =~= s);
            }
        }
    }
}

/// Upper-case ASCII letters become their lower-case ones, and nothing else changes.
pub proof fn law_lower_case(s: Seq<char>, i: int)
    requires
        0 <= i < s.len(),
    ensures
        lower_of(s).len() == s.len(),
        'A' <= s[i] <= 'Z' ==> lower_of(s)[i] as u32 == s[i] as u32 + 32,
        !('A' <= s[i] <= 'Z') ==> lower_of(s)[i] == s[i],
{
}

/// Padding puts zeros in front up to the width, and never cuts.
pub proof fn law_padding(s: Seq<char>, width: nat)
    ensures
        zero_padded(s, width).len() == if s.len() < width {
            width
        } else {
            s.len()
        },
        ends_with_seq(zero_padded(s, width), s),
        forall|i: int|
            0 <= i < zero_padded(s, width).len() - s.len() ==> #[trigger] zero_padded(s, width)[i]
                == '0',
{
    let p = zero_padded(s, width);
    assert(p.subrange(p.len() - s.len(), p.len() as int) =~= s);
}

/// A number in hexadecimal is written in sixteens, with the letters from `a` to `f`.
pub proof fn law_hexadecimal(n: nat, d: nat)
    requires
        d < 16,
    ensures
        d < 10 ==> digit_char(d) as u32 == 48 + d,
        d >= 10 ==> digit_char(d) as u32 == 97 + (d - 10),
        hex_of(d) == seq![digit_char(d)],
        n > 0 ==> hex_of(16 * n + d) == hex_of(n).push(digit_char(d)),
{
    if n > 0 {
        let m = 16 * n + d;
        assert(m / 16 == n);
        assert(m % 16 == d);
    }
}

/// A text occurs in another exactly where the other is it with something on either side.
pub proof fn law_contains(a: Seq<char>, p: Seq<char>, b: Seq<char>)
    ensures
        contains_seq(a + p + b, p),
        starts_with_seq(p + b, p),
        ends_with_seq(a + p, p),
{
    let s = a + p + b;
    assert(s.subrange(a.len() as int, a.len() as int + p.len()) =~= p);
    assert((p + b).subrange(0, p.len() as int) =~= p);
    let t = a + p;
    assert(t.subrange(t.len() - p.len(), t.len() as int) =~= p);
}

/// Trimming the end never makes a text longer.
pub proof fn lemma_trim_end_len(s: Seq<char>)
    ensures
        trim_end_of(s).len() <= s.len(),
    decreases s.len(),
{
    if s.len() > 0 && is_white(s.last()) {
        lemma_trim_end_len(s.drop_last());
    }
}

} // verus!
