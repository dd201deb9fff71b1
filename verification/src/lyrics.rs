//! Lyrics: a time line out of LRC text, or plain lines where the text has no time stamps.

use crate::text::{
    chars_of, decimal_of, digits_in, digits_only, digits_value, find_char, first_of, i64_of, is_digit,
    is_number, law_numbers_read_back, law_signs, law_trim_takes_whitespace_only, lemma_first_of,
    lemma_first_of_bounds, lemma_split_at, lemma_split_none, lemma_split_pieces, lemma_trim,
    lemma_trim_start_keeps, lemma_trim_start_len, parse_i64, signed_of, split_of, starts_with,
    starts_with_seq, string_of, trim, trim_of, trim_start, trim_start_of, zero_padded,
};
use vstd::arithmetic::div_mod::lemma_div_denominator;
use vstd::arithmetic::power::{lemma_pow_positive, pow};
use vstd::prelude::*;
use vstd::slice::slice_subrange;
use vstd::string::StringExecFns;
use vstd::utf8::{decode_utf8, valid_utf8};

verus! {

/// One line of lyrics. `time_ms` is 0 throughout where the text has no time line.
#[derive(Debug, Clone)]
pub struct LyricLine {
    pub time_ms: i64,
    pub text: String,
}

/// What a `LyricLine` shows.
pub struct LineView {
    pub time_ms: i64,
    pub text: Seq<char>,
}

impl View for LyricLine {
    type V = LineView;

    open spec fn view(&self) -> LineView {
        LineView { time_ms: self.time_ms, text: self.text@ }
    }
}

/// The views of a list of lines.
pub open spec fn lines_view(lines: Seq<LyricLine>) -> Seq<LineView> {
    lines.map_values(|l: LyricLine| l@)
}

/// The two separators between seconds and fraction.
pub open spec fn fraction_sep(s: Seq<char>) -> Option<int>
    decreases s.len(),
{
    if s.len() == 0 {
        None
    } else if s[0] == '.' || s[0] == ':' {
        Some(0)
    } else {
        match fraction_sep(s.drop_first()) {
            Some(i) => Some(i + 1),
            None => None,
        }
    }
}

/// The milliseconds that the digits of a fraction of a second stand for: one digit counts tenths,
/// two count hundredths, three thousandths, and further digits are cut off.
pub open spec fn fraction_ms(digits: Seq<char>) -> Option<int> {
    if digits.len() == 0 {
        Some(0)
    } else {
        match i64_of(digits) {
            None => None,
            Some(v) => if digits.len() == 1 {
                Some(v * 100)
            } else if digits.len() == 2 {
                Some(v * 10)
            } else {
                Some(v as int / pow(10, (digits.len() - 3) as nat))
            },
        }
    }
}

/// The milliseconds of a stamp `mm:ss`, `mm:ss.xx` or `mm:ss:xx`, or nothing where the text is no
/// stamp. A sum outside the range of `i64` wraps around.
pub open spec fn stamp_of(inner: Seq<char>) -> Option<i64> {
    match first_of(inner, ':') {
        None => None,
        Some(c) => {
            let rest = inner.subrange(c + 1, inner.len() as int);
            let (secs, frac) = match fraction_sep(rest) {
                Some(k) => (
                    rest.subrange(0, k),
                    digits_in(rest.subrange(k + 1, rest.len() as int)),
                ),
                None => (rest, Seq::<char>::empty()),
            };
            match (i64_of(trim_of(inner.subrange(0, c))), i64_of(trim_of(secs)), fraction_ms(frac)) {
                (Some(m), Some(s), Some(f)) => Some(((m * 60 + s) * 1000 + f) as i64),
                _ => None,
            }
        },
    }
}

/// What the bracketed markers at the start of a line amount to.
pub struct Markers {
    /// The time stamps, in the order of their markers.
    pub stamps: Seq<i64>,
    /// The offset in force after the markers.
    pub offset_ms: i64,
    /// What follows the markers.
    pub rest: Seq<char>,
}

/// The offset after a marker `[inner]` that is no stamp.
pub open spec fn offset_after(inner: Seq<char>, offset_ms: i64) -> i64 {
    let tag = "offset:"@;
    if starts_with_seq(inner, tag) {
        match i64_of(trim_of(inner.subrange(tag.len() as int, inner.len() as int))) {
            Some(n) => n,
            None => offset_ms,
        }
    } else {
        offset_ms
    }
}

/// Takes the markers off the start of `rest`: stamps are collected, an `offset:` marker replaces
/// the offset, and any other marker is dropped.
pub open spec fn markers_of(rest: Seq<char>, stamps: Seq<i64>, offset_ms: i64) -> Markers
    decreases rest.len(),
{
    let done = Markers { stamps, offset_ms, rest };
    if rest.len() > 0 && rest[0] == '[' {
        match first_of(rest, ']') {
            None => done,
            Some(end) => {
                if 0 < end < rest.len() {
                    let inner = rest.subrange(1, end);
                    let after = rest.subrange(end + 1, rest.len() as int);
                    let next = trim_start_of(after);
                    proof {
                        lemma_trim_start_len(after);
                    }
                    match stamp_of(inner) {
                        Some(ms) => markers_of(next, stamps.push(ms), offset_ms),
                        None => markers_of(next, stamps, offset_after(inner, offset_ms)),
                    }
                } else {
                    done
                }
            },
        }
    } else {
        done
    }
}

/// What has been read of a text so far.
pub struct LrcState {
    pub timed: Seq<LineView>,
    pub plain: Seq<LineView>,
    pub offset_ms: i64,
}

/// The lines that one text repeated at each of the stamps gives.
pub open spec fn stamped(stamps: Seq<i64>, offset_ms: i64, text: Seq<char>) -> Seq<LineView> {
    stamps.map_values(|ms: i64| LineView { time_ms: (ms + offset_ms) as i64, text })
}

/// Reads one line of text.
pub open spec fn lrc_step(st: LrcState, raw: Seq<char>) -> LrcState {
    let m = markers_of(trim_of(raw), Seq::empty(), st.offset_ms);
    let content = trim_of(m.rest);
    if content.len() == 0 {
        LrcState { offset_ms: m.offset_ms, ..st }
    } else if m.stamps.len() == 0 {
        LrcState {
            plain: st.plain.push(LineView { time_ms: 0, text: content }),
            offset_ms: m.offset_ms,
            ..st
        }
    } else {
        LrcState {
            timed: st.timed + stamped(m.stamps, m.offset_ms, content),
            offset_ms: m.offset_ms,
            ..st
        }
    }
}

/// Reads the lines of a text one after the other.
pub open spec fn lrc_fold(lines: Seq<Seq<char>>, st: LrcState) -> LrcState
    decreases lines.len(),
{
    if lines.len() == 0 {
        st
    } else {
        lrc_fold(lines.drop_first(), lrc_step(st, lines[0]))
    }
}

/// The state before the first line.
pub open spec fn lrc_start() -> LrcState {
    LrcState { timed: Seq::empty(), plain: Seq::empty(), offset_ms: 0 }
}

/// `s` with `x` put behind every line that is not later than it.
pub open spec fn insert_by_time(s: Seq<LineView>, x: LineView) -> Seq<LineView>
    decreases s.len(),
{
    if s.len() == 0 || s.last().time_ms <= x.time_ms {
        s.push(x)
    } else {
        insert_by_time(s.drop_last(), x).push(s.last())
    }
}

/// The lines in the order of their times; lines of one time keep their order.
pub open spec fn sort_by_time(s: Seq<LineView>) -> Seq<LineView>
    decreases s.len(),
{
    if s.len() == 0 {
        s
    } else {
        insert_by_time(sort_by_time(s.drop_last()), s.last())
    }
}

/// What a text reads as: the stamped lines in order of time where there are any, else the plain
/// lines in their order.
pub open spec fn lrc_of(text: Seq<char>) -> (bool, Seq<LineView>) {
    let st = lrc_fold(split_of(text, '\n'), lrc_start());
    if st.timed.len() == 0 {
        (false, st.plain)
    } else {
        (true, sort_by_time(st.timed))
    }
}

/// Whether the times never fall from one line to the next.
pub open spec fn in_time_order(s: Seq<LineView>) -> bool {
    forall|i: int, j: int| 0 <= i <= j < s.len() ==> s[i].time_ms <= s[j].time_ms
}

proof fn lemma_fraction_sep(s: Seq<char>, i: int)
    requires
        0 <= i < s.len(),
        s[i] == '.' || s[i] == ':',
        forall|j: int| 0 <= j < i ==> s[j] != '.' && s[j] != ':',
    ensures
        fraction_sep(s) == Some(i),
    decreases s.len(),
{
    if i > 0 {
        assert(s[0] != '.' && s[0] != ':');
        assert forall|j: int| 0 <= j < i - 1 implies s.drop_first()[j] != '.' && s.drop_first()[j]
            != ':' by {
            assert(s.drop_first()[j] == s[j + 1]);
        }
        lemma_fraction_sep(s.drop_first(), i - 1);
    }
}

proof fn lemma_fraction_sep_none(s: Seq<char>)
    requires
        forall|j: int| 0 <= j < s.len() ==> s[j] != '.' && s[j] != ':',
    ensures
        fraction_sep(s) is None,
    decreases s.len(),
{
    if s.len() > 0 {
        assert forall|j: int| 0 <= j < s.len() - 1 implies s.drop_first()[j] != '.'
            && s.drop_first()[j] != ':' by {
            assert(s.drop_first()[j] == s[j + 1]);
        }
        lemma_fraction_sep_none(s.drop_first());
    }
}

fn find_fraction_sep(s: &[char]) -> (r: Option<usize>)
    ensures
        r matches Some(i) ==> i < s@.len() && fraction_sep(s@) == Some(i as int),
        r is None ==> fraction_sep(s@) is None,
{
    let mut i: usize = 0;
    while i < s.len()
        invariant
            i <= s@.len(),
            forall|j: int| 0 <= j < i ==> s@[j] != '.' && s@[j] != ':',
        decreases s@.len() - i,
    {
        if s[i] == '.' || s[i] == ':' {
            proof {
                lemma_fraction_sep(s@, i as int);
            }
            return Some(i);
        }
        i = i + 1;
    }
    proof {
        lemma_fraction_sep_none(s@);
    }
    None
}

/// A run of digits never denotes a negative number.
proof fn lemma_digits_nonnegative(s: Seq<char>)
    requires
        forall|i: int| 0 <= i < s.len() ==> is_digit(#[trigger] s[i]),
        s.len() > 0,
    ensures
        i64_of(s) matches Some(v) ==> 0 <= v,
{
    assert(is_digit(s[0]));
}

proof fn lemma_digits_in(s: Seq<char>)
    ensures
        forall|i: int| 0 <= i < digits_in(s).len() ==> is_digit(#[trigger] digits_in(s)[i]),
{
    broadcast use vstd::seq_lib::group_filter_ensures;

    let p = |c: char| is_digit(c);
    assert forall|i: int| 0 <= i < digits_in(s).len() implies is_digit(#[trigger] digits_in(s)[i]) by {
        assert(p(s.filter(p)[i]));
    }
}

/// The value of a fraction's digits in milliseconds.
fn fraction_millis(digits: &[char]) -> (r: Option<i64>)
    requires
        forall|i: int| 0 <= i < digits@.len() ==> is_digit(#[trigger] digits@[i]),
    ensures
        r matches Some(v) ==> fraction_ms(digits@) == Some(v as int) && 0 <= v,
        r is None ==> fraction_ms(digits@) is None,
{
    if digits.len() == 0 {
        return Some(0);
    }
    let v: i64 = match parse_i64(digits) {
        Some(v) => v,
        None => {
            return None;
        },
    };
    proof {
        lemma_digits_nonnegative(digits@);
    }
    if digits.len() == 1 {
        proof {
            lemma_short_value(digits@);
        }
        Some(v * 100)
    } else if digits.len() == 2 {
        proof {
            lemma_short_value(digits@);
        }
        Some(v * 10)
    } else {
        let mut q: i64 = v;
        let mut k: usize = 0;
        let n: usize = digits.len() - 3;
        proof {
            vstd::arithmetic::power::lemma_pow0(10);
        }
        while k < n
            invariant
                k <= n,
                0 <= q,
                0 <= v,
                q == v as int / pow(10, k as nat),
            decreases n - k,
        {
            proof {
                lemma_pow_positive(10, k as nat);
                lemma_div_denominator(v as int, pow(10, k as nat), 10);
                vstd::arithmetic::power::lemma_pow_adds(10, k as nat, 1);
                vstd::arithmetic::power::lemma_pow1(10);
            }
            q = q / 10;
            k = k + 1;
        }
        Some(q)
    }
}

/// One or two digits denote at most 99.
proof fn lemma_short_value(s: Seq<char>)
    requires
        0 < s.len() <= 2,
        forall|i: int| 0 <= i < s.len() ==> is_digit(#[trigger] s[i]),
    ensures
        i64_of(s) matches Some(v) ==> 0 <= v <= 99,
{
    assert(is_digit(s[0]));
    assert(is_digit(s.last()));
    reveal_with_fuel(digits_value, 3);
    if s.len() == 2 {
        assert(s.drop_last().last() == s[0]);
        assert(s.drop_last().drop_last() =~= Seq::<char>::empty());
    } else {
        assert(s.drop_last() =~= Seq::<char>::empty());
    }
}

/// Reads a time stamp `mm:ss`, `mm:ss.xx` or `mm:ss.xxx` as milliseconds.
pub fn parse_stamp(inner: &[char]) -> (r: Option<i64>)
    ensures
        r == stamp_of(inner@),
{
    let c: usize = match find_char(inner, ':') {
        Some(c) => c,
        None => {
            return None;
        },
    };
    let minutes: i64 = match parse_i64(trim(slice_subrange(inner, 0, c))) {
        Some(v) => v,
        None => {
            return None;
        },
    };
    let n: usize = inner.len();
    let rest = slice_subrange(inner, c + 1, n);
    match find_fraction_sep(rest) {
        None => {
            let seconds: i64 = match parse_i64(trim(rest)) {
                Some(v) => v,
                None => {
                    return None;
                },
            };
            let total: i128 = (minutes as i128 * 60 + seconds as i128) * 1000;
            Some(
                #[verifier::truncate]
                (total as i64),
            )
        },
        Some(k) => {
            let seconds: i64 = match parse_i64(trim(slice_subrange(rest, 0, k))) {
                Some(v) => v,
                None => {
                    return None;
                },
            };
            let len: usize = rest.len();
            let tail = slice_subrange(rest, k + 1, len);
            let digits = digits_only(tail);
            proof {
                lemma_digits_in(tail@);
            }
            let frac: i64 = match fraction_millis(digits.as_slice()) {
                Some(v) => v,
                None => {
                    return None;
                },
            };
            let total: i128 = (minutes as i128 * 60 + seconds as i128) * 1000 + frac as i128;
            Some(
                #[verifier::truncate]
                (total as i64),
            )
        },
    }
}

/// Takes the markers off the start of a line. The stamps found are appended to `stamps`, and
/// `offset_ms` follows the `offset:` markers; what is left of the line is returned.
fn strip_markers<'a>(line: &'a [char], stamps: &mut Vec<i64>, offset_ms: &mut i64) -> (r: &'a [char])
    ensures
        ({
            let m = markers_of(line@, old(stamps)@, *old(offset_ms));
            r@ == m.rest && final(stamps)@ == m.stamps && *final(offset_ms) == m.offset_ms
        }),
{
    let mut rest = line;
    let ghost goal = markers_of(line@, stamps@, *offset_ms);
    let tag = chars_of("offset:");
    while rest.len() > 0 && rest[0] == '['
        invariant_except_break
            goal == markers_of(rest@, stamps@, *offset_ms),
            tag@ == "offset:"@,
        ensures
            rest@ == goal.rest,
            stamps@ == goal.stamps,
            *offset_ms == goal.offset_ms,
        decreases rest@.len(),
    {
        let end: usize = match find_char(rest, ']') {
            Some(end) => end,
            None => {
                break;
            },
        };
        proof {
            lemma_first_of_bounds(rest@, ']');
        }
        let n: usize = rest.len();
        let inner = slice_subrange(rest, 1, end);
        let after = slice_subrange(rest, end + 1, n);
        proof {
            lemma_trim_start_len(after@);
        }
        match parse_stamp(inner) {
            Some(ms) => {
                stamps.push(ms);
            },
            None => {
                if starts_with(inner, tag.as_slice()) {
                    let v = slice_subrange(inner, tag.len(), inner.len());
                    if let Some(k) = parse_i64(trim(v)) {
                        *offset_ms = k;
                    }
                }
            },
        }
        rest = trim_start(after);
    }
    rest
}

proof fn lemma_view_push(v: Seq<LyricLine>, x: LyricLine)
    ensures
        lines_view(v.push(x)) == lines_view(v).push(x@),
{
    assert(lines_view(v.push(x)) =~= lines_view(v).push(x@));
}

/// Appends one line for each stamp.
fn push_stamped(timed: &mut Vec<LyricLine>, stamps: &[i64], offset_ms: i64, content: &[char])
    ensures
        lines_view(final(timed)@) == lines_view(old(timed)@) + stamped(
            stamps@,
            offset_ms,
            content@,
        ),
{
    let ghost base = lines_view(timed@);
    let ghost want = stamped(stamps@, offset_ms, content@);
    let mut i: usize = 0;
    proof {
        assert(base + want.take(0) =~= base);
    }
    while i < stamps.len()
        invariant
            i <= stamps@.len(),
            want == stamped(stamps@, offset_ms, content@),
            lines_view(timed@) == base + want.take(i as int),
        decreases stamps@.len() - i,
    {
        let total: i128 = stamps[i] as i128 + offset_ms as i128;
        let line = LyricLine {
            time_ms: #[verifier::truncate]
            (total as i64),
            text: string_of(content),
        };
        proof {
            lemma_view_push(timed@, line);
            assert(base + want.take(i + 1) =~= (base + want.take(i as int)).push(want[i as int]));
        }
        timed.push(line);
        i = i + 1;
    }
    proof {
        assert(want.take(stamps@.len() as int) =~= want);
    }
}

/// Reads one line of text into the two lists.
fn read_line(
    raw: &[char],
    timed: &mut Vec<LyricLine>,
    plain: &mut Vec<LyricLine>,
    offset_ms: &mut i64,
)
    ensures
        (LrcState {
            timed: lines_view(final(timed)@),
            plain: lines_view(final(plain)@),
            offset_ms: *final(offset_ms),
        }) == lrc_step(
            LrcState {
                timed: lines_view(old(timed)@),
                plain: lines_view(old(plain)@),
                offset_ms: *old(offset_ms),
            },
            raw@,
        ),
{
    let mut stamps: Vec<i64> = Vec::new();
    let rest = strip_markers(trim(raw), &mut stamps, offset_ms);
    let content = trim(rest);
    if content.len() == 0 {
        return;
    }
    if stamps.len() == 0 {
        let line = LyricLine { time_ms: 0, text: string_of(content) };
        proof {
            lemma_view_push(plain@, line);
        }
        plain.push(line);
    } else {
        push_stamped(timed, stamps.as_slice(), *offset_ms, content);
    }
}

proof fn lemma_fold_first(lines: Seq<Seq<char>>, rest: Seq<Seq<char>>, first: Seq<char>, st: LrcState)
    requires
        lines == seq![first] + rest,
    ensures
        lrc_fold(lines, st) == lrc_fold(rest, lrc_step(st, first)),
{
    assert(lines.drop_first() =~= rest);
    assert(lines[0] == first);
}

/// Inserting behind the lines that are not later keeps the insertion spec for any longer list
/// whose tail is later.
proof fn lemma_insert_at(s: Seq<LineView>, x: LineView, k: int)
    requires
        0 <= k <= s.len(),
        k > 0 ==> s[k - 1].time_ms <= x.time_ms,
        forall|j: int| k <= j < s.len() ==> s[j].time_ms > x.time_ms,
    ensures
        insert_by_time(s, x) == s.insert(k, x),
    decreases s.len(),
{
    if k == s.len() {
        assert(s.insert(k, x) =~= s.push(x));
    } else {
        lemma_insert_at(s.drop_last(), x, k);
        assert(s.drop_last().insert(k, x).push(s.last()) =~= s.insert(k, x));
    }
}

/// Sorts the lines by time; lines of one time keep their order.
fn sort_lines(lines: Vec<LyricLine>) -> (r: Vec<LyricLine>)
    ensures
        lines_view(r@) == sort_by_time(lines_view(lines@)),
{
    let ghost src = lines_view(lines@);
    let mut out: Vec<LyricLine> = Vec::new();
    proof {
        assert(lines_view(out@) =~= sort_by_time(src.take(0)));
    }
    for line in it: lines
        invariant
            it.seq() == lines@,
            src == lines_view(lines@),
            lines_view(out@) == sort_by_time(src.take(it.index())),
    {
        let ghost before = out@;
        let mut k: usize = out.len();
        while k > 0 && out[k - 1].time_ms > line.time_ms
            invariant
                k <= out@.len(),
                forall|j: int| k <= j < out@.len() ==> out@[j].time_ms > line.time_ms,
            decreases k,
        {
            k = k - 1;
        }
        proof {
            let n = it.index();
            assert(src.take(n + 1).drop_last() =~= src.take(n));
            assert(src.take(n + 1).last() == line@);
            assert forall|j: int| k <= j < lines_view(before).len() implies lines_view(
                before,
            )[j].time_ms > line@.time_ms by {
                assert(before[j].time_ms > line.time_ms);
            }
            lemma_insert_at(lines_view(before), line@, k as int);
            assert(lines_view(before.insert(k as int, line)) =~= lines_view(before).insert(
                k as int,
                line@,
            ));
        }
        out.insert(k, line);
    }
    proof {
        assert(src.take(src.len() as int) =~= src);
    }
    out
}

/// Reads lyrics text: `[mm:ss.xx]` markers at the start of a line (any number of them) give a time
/// line, and text without a single stamp is taken line by line.
pub fn parse_lrc(text: &str) -> (r: (bool, Vec<LyricLine>))
    ensures
        (r.0, lines_view(r.1@)) == lrc_of(text@),
{
    let chars = chars_of(text);
    let mut rest = chars.as_slice();
    let mut timed: Vec<LyricLine> = Vec::new();
    let mut plain: Vec<LyricLine> = Vec::new();
    let mut offset_ms: i64 = 0;
    let ghost goal = lrc_fold(split_of(text@, '\n'), lrc_start());
    proof {
        assert(lines_view(timed@) =~= Seq::<LineView>::empty());
        assert(lines_view(plain@) =~= Seq::<LineView>::empty());
    }
    loop
        invariant_except_break
            goal == lrc_fold(
                split_of(rest@, '\n'),
                LrcState {
                    timed: lines_view(timed@),
                    plain: lines_view(plain@),
                    offset_ms,
                },
            ),
        ensures
            goal.timed == lines_view(timed@),
            goal.plain == lines_view(plain@),
        decreases rest@.len(),
    {
        let ghost st = LrcState {
            timed: lines_view(timed@),
            plain: lines_view(plain@),
            offset_ms,
        };
        match find_char(rest, '\n') {
            Some(i) => {
                let n: usize = rest.len();
                let line = slice_subrange(rest, 0, i);
                let next = slice_subrange(rest, i + 1, n);
                proof {
                    lemma_split_at(rest@, '\n', i as int);
                    lemma_fold_first(split_of(rest@, '\n'), split_of(next@, '\n'), line@, st);
                }
                read_line(line, &mut timed, &mut plain, &mut offset_ms);
                rest = next;
            },
            None => {
                proof {
                    lemma_split_none(rest@, '\n');
                    let none = Seq::<Seq<char>>::empty();
                    assert(seq![rest@] =~= seq![rest@] + none);
                    lemma_fold_first(split_of(rest@, '\n'), none, rest@, st);
                }
                read_line(rest, &mut timed, &mut plain, &mut offset_ms);
                break;
            },
        }
    }
    if timed.len() == 0 {
        (false, plain)
    } else {
        (true, sort_lines(timed))
    }
}

/// The text of a file without the byte order marks in front of it.
pub open spec fn without_bom(s: Seq<char>) -> Seq<char>
    decreases s.len(),
{
    if s.len() > 0 && s[0] == '\u{feff}' {
        without_bom(s.drop_first())
    } else {
        s
    }
}

/// What `String::from_utf8_lossy` makes of the bytes.
pub uninterp spec fn utf8_lossy(bytes: Seq<u8>) -> Seq<char>;

/// The text that a file's bytes hold: UTF-8 without its byte order mark, and a lossy reading where
/// the bytes are no UTF-8.
pub open spec fn decoded(bytes: Seq<u8>) -> Seq<char> {
    if valid_utf8(bytes) {
        without_bom(decode_utf8(bytes))
    } else {
        utf8_lossy(bytes)
    }
}

/// Calls `std::str::from_utf8`, which succeeds on well-formed UTF-8 alone and then gives the
/// characters that the bytes encode.
#[verifier::external_body]
fn utf8_text(bytes: &[u8]) -> (r: Option<String>)
    ensures
        r is Some <==> valid_utf8(bytes@),
        r matches Some(s) ==> s@ == decode_utf8(bytes@),
{
    std::str::from_utf8(bytes).ok().map(|s| s.to_string())
}

/// Calls `String::from_utf8_lossy`. The result depends on the bytes alone.
#[verifier::external_body]
fn lossy_text(bytes: &[u8]) -> (r: String)
    ensures
        r@ == utf8_lossy(bytes@),
{
    String::from_utf8_lossy(bytes).to_string()
}

proof fn lemma_without_bom(s: Seq<char>, i: int)
    requires
        0 <= i <= s.len(),
        forall|j: int| 0 <= j < i ==> s[j] == '\u{feff}',
        i < s.len() ==> s[i] != '\u{feff}',
    ensures
        without_bom(s) == s.subrange(i, s.len() as int),
    decreases s.len(),
{
    if i == 0 {
        assert(s.subrange(0, s.len() as int) =~= s);
    } else {
        assert(s[0] == '\u{feff}');
        assert forall|j: int| 0 <= j < i - 1 implies s.drop_first()[j] == '\u{feff}' by {
            assert(s.drop_first()[j] == s[j + 1]);
        }
        lemma_without_bom(s.drop_first(), i - 1);
        assert(s.drop_first().subrange(i - 1, s.len() - 1) =~= s.subrange(i, s.len() as int));
    }
}

/// Decodes the bytes of a lyrics file.
pub fn decode_text(bytes: &[u8]) -> (r: String)
    ensures
        r@ == decoded(bytes@),
{
    match utf8_text(bytes) {
        Some(s) => {
            let chars = chars_of(s.as_str());
            let n: usize = chars.len();
            let mut i: usize = 0;
            while i < n && chars[i] == '\u{feff}'
                invariant
                    n == chars@.len(),
                    i <= n,
                    forall|j: int| 0 <= j < i ==> chars@[j] == '\u{feff}',
                decreases n - i,
            {
                i = i + 1;
            }
            proof {
                lemma_without_bom(chars@, i as int);
            }
            string_of(slice_subrange(chars.as_slice(), i, n))
        },
        None => lossy_text(bytes),
    }
}

/// The lyrics of one track.
#[derive(Debug, Clone)]
pub struct Lyrics {
    /// `lrc-file`, `embedded` or `none`.
    pub source: String,
    /// Whether the lines have a time line.
    pub synced: bool,
    /// Where the text came from, for display.
    pub origin: Option<String>,
    pub lines: Vec<LyricLine>,
}

/// What a `Lyrics` shows.
pub struct LyricsView {
    pub source: Seq<char>,
    pub synced: bool,
    pub origin: Option<Seq<char>>,
    pub lines: Seq<LineView>,
}

impl View for Lyrics {
    type V = LyricsView;

    open spec fn view(&self) -> LyricsView {
        LyricsView {
            source: self.source@,
            synced: self.synced,
            origin: match self.origin {
                Some(s) => Some(s@),
                None => None,
            },
            lines: lines_view(self.lines@),
        }
    }
}

/// The lyrics of a track that has none.
pub open spec fn no_lyrics() -> LyricsView {
    LyricsView { source: "none"@, synced: false, origin: None, lines: Seq::empty() }
}

impl Lyrics {
    pub fn none() -> (r: Self)
        ensures
            r@ == no_lyrics(),
    {
        let r = Lyrics {
            source: "none".to_owned(),
            synced: false,
            origin: None,
            lines: Vec::new(),
        };
        proof {
            assert(r@.lines =~= no_lyrics().lines);
        }
        r
    }
}

/// A file that stands beside the audio file and bears its name.
#[derive(Debug, Clone)]
pub struct Sidecar {
    pub name: String,
    pub bytes: Vec<u8>,
}

/// The sidecar that counts: the first one with text in it.
pub open spec fn chosen_sidecar(files: Seq<Sidecar>) -> Option<Sidecar>
    decreases files.len(),
{
    if files.len() == 0 {
        None
    } else if trim_of(decoded(files[0].bytes@)).len() > 0 {
        Some(files[0])
    } else {
        chosen_sidecar(files.drop_first())
    }
}

/// The text that counts among those of the tags: the first that is not blank, trimmed.
pub open spec fn chosen_tag(texts: Seq<String>) -> Option<Seq<char>>
    decreases texts.len(),
{
    if texts.len() == 0 {
        None
    } else if trim_of(texts[0]@).len() > 0 {
        Some(trim_of(texts[0]@))
    } else {
        chosen_tag(texts.drop_first())
    }
}

/// The lyrics of a sidecar, if it holds any line.
pub open spec fn sidecar_lyrics(files: Seq<Sidecar>) -> Option<LyricsView> {
    match chosen_sidecar(files) {
        None => None,
        Some(f) => {
            let (synced, lines) = lrc_of(decoded(f.bytes@));
            if lines.len() > 0 {
                Some(
                    LyricsView {
                        source: "lrc-file"@,
                        synced,
                        origin: Some(f.name@),
                        lines,
                    },
                )
            } else {
                None
            }
        },
    }
}

/// The lyrics of the tags, if they hold any line.
pub open spec fn tag_lyrics(texts: Seq<String>) -> Option<LyricsView> {
    match chosen_tag(texts) {
        None => None,
        Some(t) => {
            let (synced, lines) = lrc_of(t);
            if lines.len() > 0 {
                Some(
                    LyricsView {
                        source: "embedded"@,
                        synced,
                        origin: Some("内嵌歌词标签"@),
                        lines,
                    },
                )
            } else {
                None
            }
        },
    }
}

/// The names under which a sidecar is looked for.
pub open spec fn names_of_sidecars(stem: Seq<char>) -> Seq<Seq<char>> {
    seq![stem + ".lrc"@, stem + ".LRC"@, stem + ".Lrc"@, stem + ".txt"@, stem + ".TXT"@]
}

/// The names under which a sidecar is looked for, in order of preference.
pub fn sidecar_names(stem: &str) -> (r: Vec<String>)
    ensures
        r@.len() == names_of_sidecars(stem@).len(),
        forall|i: int| 0 <= i < r@.len() ==> (#[trigger] r@[i])@ == names_of_sidecars(stem@)[i],
{
    let mut r: Vec<String> = Vec::new();
    r.push(stem.to_owned().concat(".lrc"));
    r.push(stem.to_owned().concat(".LRC"));
    r.push(stem.to_owned().concat(".Lrc"));
    r.push(stem.to_owned().concat(".txt"));
    r.push(stem.to_owned().concat(".TXT"));
    r
}

/// The position of the sidecar that counts, and its text.
fn pick_sidecar(files: &[Sidecar]) -> (r: Option<(usize, String)>)
    ensures
        r matches Some((i, t)) ==> i < files@.len() && chosen_sidecar(files@) == Some(
            files@[i as int],
        ) && t@ == decoded(files@[i as int].bytes@),
        r is None ==> chosen_sidecar(files@) is None,
{
    let mut i: usize = 0;
    let n: usize = files.len();
    proof {
        assert(files@.subrange(0, n as int) =~= files@);
    }
    while i < n
        invariant
            n == files@.len(),
            i <= n,
            chosen_sidecar(files@) == chosen_sidecar(files@.subrange(i as int, n as int)),
        decreases n - i,
    {
        let t = decode_text(files[i].bytes.as_slice());
        let chars = chars_of(t.as_str());
        let blank = trim(chars.as_slice()).len() == 0;
        proof {
            let s = files@.subrange(i as int, n as int);
            assert(s[0] == files@[i as int]);
            assert(s.drop_first() =~= files@.subrange(i + 1, n as int));
        }
        if !blank {
            return Some((i, t));
        }
        i = i + 1;
    }
    None
}

/// The text that counts among those that the tags hold, in the order of the tags.
pub fn pick_embedded(texts: &[String]) -> (r: Option<String>)
    ensures
        r matches Some(t) ==> chosen_tag(texts@) == Some(t@),
        r is None ==> chosen_tag(texts@) is None,
{
    let mut i: usize = 0;
    let n: usize = texts.len();
    proof {
        assert(texts@.subrange(0, n as int) =~= texts@);
    }
    while i < n
        invariant
            n == texts@.len(),
            i <= n,
            chosen_tag(texts@) == chosen_tag(texts@.subrange(i as int, n as int)),
        decreases n - i,
    {
        let chars = chars_of(texts[i].as_str());
        let t = trim(chars.as_slice());
        proof {
            let s = texts@.subrange(i as int, n as int);
            assert(s[0] == texts@[i as int]);
            assert(s.drop_first() =~= texts@.subrange(i + 1, n as int));
        }
        if t.len() > 0 {
            return Some(string_of(t));
        }
        i = i + 1;
    }
    None
}

/// The lyrics of a track.
pub open spec fn lyrics_of(sidecars: Seq<Sidecar>, tag_texts: Seq<String>) -> LyricsView {
    match sidecar_lyrics(sidecars) {
        Some(l) => l,
        None => match tag_lyrics(tag_texts) {
            Some(l) => l,
            None => no_lyrics(),
        },
    }
}

/// The lyrics of a track: from the files beside it (those of `sidecar_names` that could be read, in
/// that order), else from the texts that its tags hold, else none.
pub fn load(sidecars: &[Sidecar], tag_texts: &[String]) -> (r: Lyrics)
    ensures
        r@ == lyrics_of(sidecars@, tag_texts@),
{
    if let Some((i, text)) = pick_sidecar(sidecars) {
        let (synced, lines) = parse_lrc(text.as_str());
        if lines.len() > 0 {
            return Lyrics {
                source: "lrc-file".to_owned(),
                synced,
                origin: Some(sidecars[i].name.clone()),
                lines,
            };
        }
    }
    if let Some(text) = pick_embedded(tag_texts) {
        let (synced, lines) = parse_lrc(text.as_str());
        if lines.len() > 0 {
            return Lyrics {
                source: "embedded".to_owned(),
                synced,
                origin: Some("内嵌歌词标签".to_owned()),
                lines,
            };
        }
    }
    Lyrics::none()
}

/// The lines of `s` that stand at time `t`.
pub open spec fn at_time(s: Seq<LineView>, t: i64) -> Seq<LineView> {
    s.filter(|l: LineView| l.time_ms == t)
}

proof fn lemma_insert_order(s: Seq<LineView>, x: LineView)
    requires
        in_time_order(s),
    ensures
        in_time_order(insert_by_time(s, x)),
        insert_by_time(s, x).len() == s.len() + 1,
        insert_by_time(s, x).to_multiset() == s.to_multiset().insert(x),
        forall|i: int| 0 <= i <= s.len() ==> (#[trigger] insert_by_time(s, x)[i]).time_ms
            <= x.time_ms || s.contains(insert_by_time(s, x)[i]),
        insert_by_time(s, x).last().time_ms == x.time_ms || s.len() > 0
            && insert_by_time(s, x).last() == s.last(),
    decreases s.len(),
{
    broadcast use vstd::seq_lib::group_to_multiset_ensures;

    let r = insert_by_time(s, x);
    if s.len() == 0 || s.last().time_ms <= x.time_ms {
        assert forall|i: int| 0 <= i <= s.len() implies (#[trigger] r[i]).time_ms <= x.time_ms by {
            if i < s.len() {
                assert(s[i].time_ms <= s[s.len() - 1].time_ms);
            }
        }
    } else {
        let t = s.drop_last();
        lemma_insert_order(t, x);
        let u = insert_by_time(t, x);
        assert(s =~= t.push(s.last()));
        assert forall|i: int| 0 <= i < u.len() implies (#[trigger] u[i]).time_ms
            <= s.last().time_ms by {
            if u[i].time_ms > x.time_ms {
                assert(t.contains(u[i]));
                let j = choose|j: int| 0 <= j < t.len() && t[j] == u[i];
                assert(s[j].time_ms <= s[s.len() - 1].time_ms);
            }
        }
        assert forall|i: int| 0 <= i <= s.len() implies (#[trigger] r[i]).time_ms <= x.time_ms
            || s.contains(r[i]) by {
            if i < u.len() {
                assert(r[i] == u[i]);
                if u[i].time_ms > x.time_ms {
                    let j = choose|j: int| 0 <= j < t.len() && t[j] == u[i];
                    assert(s[j] == r[i]);
                }
            } else {
                assert(s[s.len() - 1] == r[i]);
            }
        }
        assert(r.to_multiset() =~= s.to_multiset().insert(x));
    }
}

proof fn lemma_at_time_push(s: Seq<LineView>, x: LineView, t: i64)
    ensures
        at_time(s.push(x), t) == if x.time_ms == t {
            at_time(s, t).push(x)
        } else {
            at_time(s, t)
        },
{
    reveal(Seq::filter);
    assert(s.push(x).drop_last() =~= s);
}

proof fn lemma_insert_stable(s: Seq<LineView>, x: LineView, t: i64)
    requires
        in_time_order(s),
    ensures
        at_time(insert_by_time(s, x), t) == at_time(s.push(x), t),
    decreases s.len(),
{
    if s.len() > 0 && s.last().time_ms > x.time_ms {
        let d = s.drop_last();
        lemma_insert_stable(d, x, t);
        lemma_at_time_push(insert_by_time(d, x), s.last(), t);
        lemma_at_time_push(d, x, t);
        lemma_at_time_push(d, s.last(), t);
        lemma_at_time_push(s, x, t);
        assert(d.push(s.last()) =~= s);
    }
}

/// A synced text reads in order of time, keeps every line once, and keeps the order of lines that
/// share a time.
pub proof fn law_sort_is_stable(s: Seq<LineView>, t: i64)
    ensures
        in_time_order(sort_by_time(s)),
        sort_by_time(s).to_multiset() == s.to_multiset(),
        at_time(sort_by_time(s), t) == at_time(s, t),
    decreases s.len(),
{
    broadcast use vstd::seq_lib::group_to_multiset_ensures;

    if s.len() > 0 {
        let d = s.drop_last();
        law_sort_is_stable(d, t);
        lemma_insert_order(sort_by_time(d), s.last());
        lemma_insert_stable(sort_by_time(d), s.last(), t);
        assert(s =~= d.push(s.last()));
        lemma_at_time_push(sort_by_time(d), s.last(), t);
        lemma_at_time_push(d, s.last(), t);
        assert(sort_by_time(s).to_multiset() =~= s.to_multiset());
    }
}

/// Whether a text may be a line of lyrics: it is not blank, is trimmed, and goes over one line.
pub open spec fn is_line_text(s: Seq<char>) -> bool {
    s.len() > 0 && trim_of(s) == s && !s.contains('\n')
}

/// What holds of every line read so far.
spec fn sound(st: LrcState) -> bool {
    &&& forall|i: int| 0 <= i < st.plain.len() ==> (#[trigger] st.plain[i]).time_ms == 0
        && is_line_text(st.plain[i].text)
    &&& forall|i: int| 0 <= i < st.timed.len() ==> is_line_text((#[trigger] st.timed[i]).text)
}

proof fn lemma_markers_keep(rest: Seq<char>, stamps: Seq<i64>, offset_ms: i64, c: char)
    requires
        !rest.contains(c),
    ensures
        !markers_of(rest, stamps, offset_ms).rest.contains(c),
    decreases rest.len(),
{
    if rest.len() > 0 && rest[0] == '[' {
        if let Some(end) = first_of(rest, ']') {
            if 0 < end < rest.len() {
                let inner = rest.subrange(1, end);
                let after = rest.subrange(end + 1, rest.len() as int);
                let next = trim_start_of(after);
                lemma_trim_start_len(after);
                lemma_trim_start_keeps(after, c);
                if after.contains(c) {
                    let k = choose|k: int| 0 <= k < after.len() && after[k] == c;
                    assert(rest[k + end + 1] == c);
                }
                match stamp_of(inner) {
                    Some(ms) => lemma_markers_keep(next, stamps.push(ms), offset_ms, c),
                    None => lemma_markers_keep(next, stamps, offset_after(inner, offset_ms), c),
                }
            }
        }
    }
}

proof fn lemma_step_sound(st: LrcState, raw: Seq<char>)
    requires
        sound(st),
        !raw.contains('\n'),
    ensures
        sound(lrc_step(st, raw)),
{
    let m = markers_of(trim_of(raw), Seq::empty(), st.offset_ms);
    lemma_trim(raw, '\n');
    lemma_markers_keep(trim_of(raw), Seq::empty(), st.offset_ms, '\n');
    lemma_trim(m.rest, '\n');
}

proof fn lemma_fold_sound(lines: Seq<Seq<char>>, st: LrcState)
    requires
        sound(st),
        forall|i: int| 0 <= i < lines.len() ==> !(#[trigger] lines[i]).contains('\n'),
    ensures
        sound(lrc_fold(lines, st)),
    decreases lines.len(),
{
    if lines.len() > 0 {
        let rest = lines.drop_first();
        lemma_step_sound(st, lines[0]);
        assert forall|i: int| 0 <= i < rest.len() implies !(#[trigger] rest[i]).contains('\n') by {
            assert(rest[i] == lines[i + 1]);
        }
        lemma_fold_sound(rest, lrc_step(st, lines[0]));
    }
}

/// Whatever the text: no line is blank, each is trimmed and holds no line break; with a time line
/// there is at least one line and the times never fall; without one every time is 0.
pub proof fn law_lrc_lines(text: Seq<char>)
    ensures
        forall|i: int|
            0 <= i < lrc_of(text).1.len() ==> is_line_text((#[trigger] lrc_of(text).1[i]).text),
        lrc_of(text).0 ==> lrc_of(text).1.len() > 0 && in_time_order(lrc_of(text).1),
        !lrc_of(text).0 ==> forall|i: int| 0 <= i < lrc_of(text).1.len() ==> (#[trigger] lrc_of(
            text,
        ).1[i]).time_ms == 0,
{
    broadcast use vstd::seq_lib::group_to_multiset_ensures;

    let st = lrc_fold(split_of(text, '\n'), lrc_start());
    lemma_split_pieces(text, '\n');
    lemma_fold_sound(split_of(text, '\n'), lrc_start());
    let out = sort_by_time(st.timed);
    law_sort_is_stable(st.timed, 0);
    if st.timed.len() > 0 {
        assert(out.len() == out.to_multiset().len());
        assert forall|i: int| 0 <= i < out.len() implies is_line_text((#[trigger] out[i]).text) by {
            assert(out.to_multiset().count(out[i]) > 0);
            assert(st.timed.to_multiset().count(out[i]) > 0);
            assert(st.timed.contains(out[i]));
        }
    }
}

/// A run of digits is trimmed, holds no separator, and reads as the number that it denotes.
proof fn lemma_run(s: Seq<char>)
    requires
        is_number(s),
        digits_value(s) <= i64::MAX,
    ensures
        trim_of(s) == s,
        i64_of(s) == Some(digits_value(s) as i64),
        fraction_sep(s) is None,
        forall|j: int| 0 <= j < s.len() ==> s[j] != ':' && s[j] != '.',
{
    assert(is_digit(s[0]) && is_digit(s[s.len() - 1]));
    assert(Seq::<char>::empty() + s + Seq::<char>::empty() =~= s);
    law_trim_takes_whitespace_only(Seq::empty(), s, Seq::empty());
    assert forall|j: int| 0 <= j < s.len() implies s[j] != ':' && s[j] != '.' by {
        assert(is_digit(s[j]));
    }
    lemma_fraction_sep_none(s);
}

proof fn lemma_digits_kept(s: Seq<char>)
    requires
        forall|i: int| 0 <= i < s.len() ==> is_digit(#[trigger] s[i]),
    ensures
        digits_in(s) == s,
    decreases s.len(),
{
    reveal(Seq::filter);
    if s.len() > 0 {
        let t = s.drop_last();
        assert forall|i: int| 0 <= i < t.len() implies is_digit(#[trigger] t[i]) by {
            assert(t[i] == s[i]);
        }
        lemma_digits_kept(t);
        assert(is_digit(s[s.len() - 1]));
        assert(t.push(s.last()) =~= s);
    }
}

proof fn lemma_digits_joined(g: Seq<char>, h: Seq<char>)
    requires
        forall|i: int| 0 <= i < h.len() ==> is_digit(#[trigger] h[i]),
    ensures
        digits_value(g + h) == digits_value(g) * pow(10, h.len()) + digits_value(h),
        digits_value(h) < pow(10, h.len()),
    decreases h.len(),
{
    if h.len() == 0 {
        assert(g + h =~= g);
        vstd::arithmetic::power::lemma_pow0(10);
        assert(digits_value(g) * 1 == digits_value(g)) by (nonlinear_arith);
    } else {
        let t = h.drop_last();
        assert forall|i: int| 0 <= i < t.len() implies is_digit(#[trigger] t[i]) by {
            assert(t[i] == h[i]);
        }
        lemma_digits_joined(g, t);
        assert((g + h).drop_last() =~= g + t);
        assert((g + h).last() == h.last());
        assert(is_digit(h[h.len() - 1]));
        vstd::arithmetic::power::lemma_pow_adds(10, t.len(), 1);
        vstd::arithmetic::power::lemma_pow1(10);
        let p = pow(10, t.len());
        let v = digits_value(g) as int;
        assert(v * (p * 10) == 10 * (v * p)) by (nonlinear_arith);
    }
}

/// A stamp counts sixty thousand for each of its minutes and a thousand for each of its seconds; of
/// the digits behind the seconds the first counts a hundred, the second ten and the third one, and
/// any more count nothing. A point and a colon in front of them mean the same.
pub proof fn law_stamp_counts(a: Seq<char>, b: Seq<char>, f: Seq<char>, more: Seq<char>, sep: char)
    requires
        is_number(a),
        is_number(b),
        digits_value(a) < 0x1_0000_0000,
        digits_value(b) < 0x1_0000_0000,
        sep == '.' || sep == ':',
        f.len() <= 3,
        f.len() < 3 ==> more.len() == 0,
        forall|i: int| 0 <= i < f.len() ==> is_digit(#[trigger] f[i]),
        forall|i: int| 0 <= i < more.len() ==> is_digit(#[trigger] more[i]),
        digits_value(f + more) <= i64::MAX,
    ensures
        ({
            let whole = 60_000 * digits_value(a) + 1000 * digits_value(b);
            let part = if f.len() == 0 {
                0
            } else if f.len() == 1 {
                100 * digits_value(f)
            } else if f.len() == 2 {
                10 * digits_value(f)
            } else {
                digits_value(f)
            };
            &&& stamp_of(a + seq![':'] + b) == Some(whole as i64)
            &&& stamp_of(a + seq![':'] + b + seq![sep] + f + more) == Some((whole + part) as i64)
        }),
{
    let d = f + more;
    assert forall|i: int| 0 <= i < d.len() implies is_digit(#[trigger] d[i]) by {
        if i < f.len() {
            assert(d[i] == f[i]);
        } else {
            assert(d[i] == more[i - f.len()]);
        }
    }
    lemma_stamp_without_fraction(a, b);
    lemma_stamp_with_fraction(a, b, d, sep);
    assert(a + seq![':'] + b + seq![sep] + f + more =~= a + seq![':'] + b + seq![sep] + d);
    lemma_fraction_parts(f, more);
    lemma_fraction_bound(f);
}

proof fn lemma_stamp_without_fraction(a: Seq<char>, b: Seq<char>)
    requires
        is_number(a),
        is_number(b),
        digits_value(a) <= i64::MAX,
        digits_value(b) <= i64::MAX,
    ensures
        stamp_of(a + seq![':'] + b) == Some(
            ((digits_value(a) as i64 * 60 + digits_value(b) as i64) * 1000 + 0) as i64,
        ),
{
    lemma_run(a);
    lemma_run(b);
    let n: int = a.len() as int;
    let t = a + seq![':'] + b;
    assert(t[n] == ':');
    assert forall|j: int| 0 <= j < n implies t[j] != ':' by {
        assert(t[j] == a[j]);
    }
    lemma_first_of(t, ':', n);
    assert(t.subrange(0, n) =~= a);
    assert(t.subrange(n + 1, t.len() as int) =~= b);
}

proof fn lemma_stamp_with_fraction(a: Seq<char>, b: Seq<char>, d: Seq<char>, sep: char)
    requires
        is_number(a),
        is_number(b),
        digits_value(a) <= i64::MAX,
        digits_value(b) <= i64::MAX,
        sep == '.' || sep == ':',
        forall|i: int| 0 <= i < d.len() ==> is_digit(#[trigger] d[i]),
    ensures
        stamp_of(a + seq![':'] + b + seq![sep] + d) == match fraction_ms(d) {
            Some(v) => Some(
                ((digits_value(a) as i64 * 60 + digits_value(b) as i64) * 1000 + v) as i64,
            ),
            None => None,
        },
{
    lemma_run(a);
    lemma_run(b);
    let n: int = a.len() as int;
    let u = a + seq![':'] + b + seq![sep] + d;
    assert(u[n] == ':');
    assert forall|j: int| 0 <= j < n implies u[j] != ':' by {
        assert(u[j] == a[j]);
    }
    lemma_first_of(u, ':', n);
    assert(u.subrange(0, n) =~= a);
    let rest = u.subrange(n + 1, u.len() as int);
    assert(rest =~= b + seq![sep] + d);
    let k: int = b.len() as int;
    assert(rest[k] == sep);
    assert forall|j: int| 0 <= j < k implies rest[j] != '.' && rest[j] != ':' by {
        assert(rest[j] == b[j]);
    }
    lemma_fraction_sep(rest, k);
    assert(rest.subrange(0, k) =~= b);
    assert(rest.subrange(k + 1, rest.len() as int) =~= d);
    lemma_digits_kept(d);
}

proof fn lemma_fraction_parts(f: Seq<char>, more: Seq<char>)
    requires
        f.len() <= 3,
        f.len() < 3 ==> more.len() == 0,
        forall|i: int| 0 <= i < f.len() ==> is_digit(#[trigger] f[i]),
        forall|i: int| 0 <= i < more.len() ==> is_digit(#[trigger] more[i]),
        digits_value(f + more) <= i64::MAX,
    ensures
        fraction_ms(f + more) == Some(
            if f.len() == 0 {
                0
            } else if f.len() == 1 {
                100 * digits_value(f) as int
            } else if f.len() == 2 {
                10 * digits_value(f) as int
            } else {
                digits_value(f) as int
            },
        ),
{
    let d = f + more;
    if d.len() > 0 {
        assert forall|i: int| 0 <= i < d.len() implies is_digit(#[trigger] d[i]) by {
            if i < f.len() {
                assert(d[i] == f[i]);
            } else {
                assert(d[i] == more[i - f.len()]);
            }
        }
        lemma_run(d);
    }
    if more.len() == 0 {
        assert(d =~= f);
        vstd::arithmetic::power::lemma_pow0(10);
    } else {
        lemma_digits_joined(f, more);
        lemma_pow_positive(10, more.len());
        let p = pow(10, more.len());
        let q = digits_value(f) as int;
        assert(q * p == p * q) by (nonlinear_arith);
        vstd::arithmetic::div_mod::lemma_fundamental_div_mod_converse(
            digits_value(d) as int,
            p,
            q,
            digits_value(more) as int,
        );
    }
}

proof fn lemma_fraction_bound(f: Seq<char>)
    requires
        f.len() <= 3,
        forall|i: int| 0 <= i < f.len() ==> is_digit(#[trigger] f[i]),
    ensures
        digits_value(f) < 1000,
{
    lemma_digits_joined(Seq::empty(), f);
    reveal_with_fuel(pow, 5);
}

/// A time that is written as minutes, seconds and hundredths reads as that time.
pub proof fn law_stamp_reads_back(m: nat, s: nat, c: nat)
    requires
        m < 0x1_0000_0000,
        s < 60,
        c < 100,
    ensures
        stamp_of(decimal_of(m) + seq![':'] + zero_padded(decimal_of(s), 2) + seq!['.'] + zero_padded(
            decimal_of(c),
            2,
        )) == Some((60_000 * m + 1000 * s + 10 * c) as i64),
        stamp_of(decimal_of(m) + seq![':'] + zero_padded(decimal_of(s), 2)) == Some(
            (60_000 * m + 1000 * s) as i64,
        ),
{
    law_numbers_read_back(m);
    lemma_two_digits(s);
    lemma_two_digits(c);
    let (a, b, f) = (decimal_of(m), zero_padded(decimal_of(s), 2), zero_padded(decimal_of(c), 2));
    assert(f + Seq::<char>::empty() =~= f);
    law_stamp_counts(a, b, f, Seq::empty(), '.');
    assert(a + seq![':'] + b + seq!['.'] + f + Seq::<char>::empty() =~= a + seq![':'] + b + seq!['.']
        + f);
}

proof fn lemma_two_digits(n: nat)
    requires
        n < 100,
    ensures
        ({
            let t = zero_padded(decimal_of(n), 2);
            t.len() == 2 && is_number(t) && digits_value(t) == n
        }),
{
    law_numbers_read_back(n);
    let t = zero_padded(decimal_of(n), 2);
    if n < 10 {
        assert(decimal_of(n).len() == 1);
        assert(t =~= seq!['0'] + decimal_of(n));
        let d = decimal_of(n);
        assert forall|i: int| 0 <= i < d.len() implies is_digit(#[trigger] d[i]) by {}
        lemma_digits_joined(seq!['0'], d);
        assert(seq!['0'].drop_last() =~= Seq::<char>::empty());
        assert(digits_value(Seq::<char>::empty()) == 0);
        assert(digits_value(seq!['0']) == 0);
        assert(0 * pow(10, d.len()) == 0);
        assert forall|i: int| 0 <= i < t.len() implies is_digit(#[trigger] t[i]) by {
            if i > 0 {
                assert(t[i] == d[i - 1]);
            }
        }
    } else {
        assert(decimal_of(n / 10).len() == 1);
        assert(decimal_of(n).len() == 2);
    }
}

/// Whether a text is one that can follow markers: trimmed, not blank, and no marker itself.
pub open spec fn is_sung(text: Seq<char>) -> bool {
    text.len() > 0 && trim_of(text) == text && text[0] != '['
}

proof fn lemma_sung(text: Seq<char>)
    requires
        is_sung(text),
    ensures
        !crate::text::is_white(text[0]),
        !crate::text::is_white(text.last()),
        trim_start_of(text) == text,
{
    lemma_trim_start_keeps(text, ' ');
    crate::text::lemma_trim_end_keeps(trim_start_of(text), ' ');
    lemma_trim_start_len(text);
    crate::text::lemma_trim_end_len(trim_start_of(text));
    if crate::text::is_white(text[0]) {
        lemma_trim_start_len(text.drop_first());
    }
}

/// One marker off the front of a line.
proof fn lemma_one_marker(inner: Seq<char>, rest: Seq<char>, stamps: Seq<i64>, offset_ms: i64)
    requires
        forall|i: int| 0 <= i < inner.len() ==> inner[i] != ']',
        trim_start_of(rest) == rest,
    ensures
        markers_of(seq!['['] + inner + seq![']'] + rest, stamps, offset_ms) == match stamp_of(inner) {
            Some(ms) => markers_of(rest, stamps.push(ms), offset_ms),
            None => markers_of(rest, stamps, offset_after(inner, offset_ms)),
        },
{
    let s = seq!['['] + inner + seq![']'] + rest;
    let end: int = inner.len() as int + 1;
    assert(s[end] == ']');
    assert forall|j: int| 0 <= j < end implies s[j] != ']' by {
        if j > 0 {
            assert(s[j] == inner[j - 1]);
        }
    }
    lemma_first_of(s, ']', end);
    assert(s.subrange(1, end) =~= inner);
    assert(s.subrange(end + 1, s.len() as int) =~= rest);
}

proof fn lemma_marked_line_is_trimmed(inner: Seq<char>, text: Seq<char>)
    requires
        text.len() > 0 ==> !crate::text::is_white(text.last()),
    ensures
        trim_of(seq!['['] + inner + seq![']'] + text) == seq!['['] + inner + seq![']'] + text,
{
    let s = seq!['['] + inner + seq![']'] + text;
    assert(s[0] == '[');
    assert(s.last() == if text.len() > 0 {
        text.last()
    } else {
        ']'
    });
    assert(Seq::<char>::empty() + s + Seq::<char>::empty() =~= s);
    law_trim_takes_whitespace_only(Seq::empty(), s, Seq::empty());
}

/// A stamped line is sung at the time of its stamp, moved by the offset in force, and its text is
/// what follows the stamp; nothing else is added.
pub proof fn law_stamped_line(st: LrcState, inner: Seq<char>, ms: i64, text: Seq<char>)
    requires
        forall|i: int| 0 <= i < inner.len() ==> inner[i] != ']',
        stamp_of(inner) == Some(ms),
        is_sung(text),
        i64::MIN <= ms + st.offset_ms <= i64::MAX,
    ensures
        ({
            let r = lrc_step(st, seq!['['] + inner + seq![']'] + text);
            &&& r.timed == st.timed.push(LineView { time_ms: (ms + st.offset_ms) as i64, text })
            &&& r.plain == st.plain
            &&& r.offset_ms == st.offset_ms
        }),
{
    lemma_sung(text);
    lemma_marked_line_is_trimmed(inner, text);
    lemma_one_marker(inner, text, Seq::empty(), st.offset_ms);
    let stamps = Seq::<i64>::empty().push(ms);
    let m = markers_of(text, stamps, st.offset_ms);
    assert(m.rest == text && m.stamps == stamps);
    assert(st.timed + stamped(stamps, st.offset_ms, text) =~= st.timed.push(
        LineView { time_ms: (ms + st.offset_ms) as i64, text },
    ));
}

/// A line with two stamps is sung at both times, in the order of the stamps.
pub proof fn law_line_with_two_stamps(
    st: LrcState,
    first: Seq<char>,
    second: Seq<char>,
    a: i64,
    b: i64,
    text: Seq<char>,
)
    requires
        forall|i: int| 0 <= i < first.len() ==> first[i] != ']',
        forall|i: int| 0 <= i < second.len() ==> second[i] != ']',
        stamp_of(first) == Some(a),
        stamp_of(second) == Some(b),
        is_sung(text),
    ensures
        ({
            let line = seq!['['] + first + seq![']'] + (seq!['['] + second + seq![']'] + text);
            let r = lrc_step(st, line);
            &&& r.timed == st.timed.push(
                LineView { time_ms: (a + st.offset_ms) as i64, text },
            ).push(LineView { time_ms: (b + st.offset_ms) as i64, text })
            &&& r.plain == st.plain
        }),
{
    lemma_sung(text);
    let tail = seq!['['] + second + seq![']'] + text;
    assert(tail.last() == text.last());
    lemma_marked_line_is_trimmed(first, tail);
    assert(trim_start_of(tail) == tail) by {
        assert(tail[0] == '[');
    }
    lemma_one_marker(first, tail, Seq::empty(), st.offset_ms);
    let one = Seq::<i64>::empty().push(a);
    lemma_one_marker(second, text, one, st.offset_ms);
    let two = one.push(b);
    let m = markers_of(text, two, st.offset_ms);
    assert(m.rest == text && m.stamps == two);
    assert(st.timed + stamped(two, st.offset_ms, text) =~= st.timed.push(
        LineView { time_ms: (a + st.offset_ms) as i64, text },
    ).push(LineView { time_ms: (b + st.offset_ms) as i64, text }));
}

/// An offset line sets the offset for the lines after it and is no line itself.
pub proof fn law_offset_line(st: LrcState, n: i64)
    ensures
        ({
            let r = lrc_step(st, "[offset:"@ + signed_of(n as int) + "]"@);
            &&& r.offset_ms == n
            &&& r.timed == st.timed
            &&& r.plain == st.plain
        }),
{
    reveal_strlit("[offset:");
    reveal_strlit("offset:");
    reveal_strlit("]");
    reveal_strlit("-");
    let num = signed_of(n as int);
    let inner = "offset:"@ + num;
    let none = Seq::<char>::empty();
    let line = seq!['['] + inner + seq![']'] + none;
    assert("[offset:"@ + num + "]"@ =~= line);
    lemma_number_chars(n as int);
    assert forall|i: int| 0 <= i < inner.len() implies inner[i] != ']' by {
        if i >= 7 {
            assert(inner[i] == num[i - 7]);
        }
    }
    assert(inner[6] == ':');
    lemma_first_of(inner, ':', 6);
    let word = inner.subrange(0, 6);
    assert(word =~= seq!['o', 'f', 'f', 's', 'e', 't']);
    assert(none + word + none =~= word);
    law_trim_takes_whitespace_only(none, word, none);
    assert(word[1] == 'f');
    law_signs(0, word);
    assert(stamp_of(inner) is None);
    let tail = inner.subrange(7, inner.len() as int);
    assert(tail =~= num);
    assert(inner.subrange(0, 7) =~= "offset:"@);
    assert(none + num + none =~= num);
    law_trim_takes_whitespace_only(none, num, none);
    law_signs(n as int, num);
    lemma_marked_line_is_trimmed(inner, none);
    lemma_one_marker(inner, none, Seq::empty(), st.offset_ms);
}

proof fn lemma_number_chars(n: int)
    ensures
        signed_of(n).len() > 0,
        forall|i: int|
            0 <= i < signed_of(n).len() ==> #[trigger] signed_of(n)[i] == '-' || is_digit(
                signed_of(n)[i],
            ),
{
    reveal_strlit("-");
    let s = signed_of(n);
    if n < 0 {
        law_numbers_read_back((-n) as nat);
        assert forall|i: int| 0 <= i < s.len() implies #[trigger] s[i] == '-' || is_digit(s[i]) by {
            if i > 0 {
                assert(s[i] == decimal_of((-n) as nat)[i - 1]);
            }
        }
    } else {
        law_numbers_read_back(n as nat);
    }
}

/// A line without a marker is a plain line of its own, wherever it stands.
pub proof fn law_plain_line(st: LrcState, text: Seq<char>)
    requires
        is_sung(text),
    ensures
        lrc_step(st, text).plain == st.plain.push(LineView { time_ms: 0, text }),
        lrc_step(st, text).timed == st.timed,
        lrc_step(st, text).offset_ms == st.offset_ms,
{
}

/// Lines are read one after the other, and a time line counts as soon as one line has a stamp.
pub proof fn law_lines_are_read_in_turn(a: Seq<Seq<char>>, b: Seq<Seq<char>>, st: LrcState)
    ensures
        lrc_fold(a + b, st) == lrc_fold(b, lrc_fold(a, st)),
    decreases a.len(),
{
    if a.len() == 0 {
        assert(a + b =~= b);
    } else {
        assert((a + b).drop_first() =~= a.drop_first() + b);
        law_lines_are_read_in_turn(a.drop_first(), b, lrc_step(st, a[0]));
    }
}

/// A text is synced where a line of it has a stamp, and then only the stamped lines count; otherwise
/// the plain lines count, in their order.
pub proof fn law_synced(text: Seq<char>)
    ensures
        ({
            let st = lrc_fold(
                split_of(text, '\n'),
                LrcState { timed: Seq::empty(), plain: Seq::empty(), offset_ms: 0 },
            );
            &&& lrc_of(text).0 <==> st.timed.len() > 0
            &&& lrc_of(text).0 ==> lrc_of(text).1.to_multiset() == st.timed.to_multiset()
            &&& !lrc_of(text).0 ==> lrc_of(text).1 == st.plain
        }),
{
    let st = lrc_fold(split_of(text, '\n'), lrc_start());
    law_sort_is_stable(st.timed, 0);
}

/// A byte order mark in front of a text is no part of it; one inside stays.
pub proof fn law_byte_order_mark(s: Seq<char>)
    requires
        s.len() > 0 ==> s[0] != '\u{feff}',
    ensures
        without_bom(s) == s,
        without_bom(seq!['\u{feff}'] + s) == s,
{
    let t = seq!['\u{feff}'] + s;
    assert(t.drop_first() =~= s);
}

/// Lyrics beside the file go before those in its tags, and of either the first that is not blank
/// counts; each says where it comes from.
pub proof fn law_sources_of_lyrics(files: Seq<Sidecar>, texts: Seq<String>, i: int, j: int)
    requires
        0 <= i < files.len(),
        trim_of(decoded(files[i].bytes@)).len() > 0,
        forall|k: int| 0 <= k < i ==> trim_of(decoded(#[trigger] files[k].bytes@)).len() == 0,
        0 <= j < texts.len(),
        trim_of(texts[j]@).len() > 0,
        forall|k: int| 0 <= k < j ==> trim_of(#[trigger] texts[k]@).len() == 0,
    ensures
        ({
            let (synced, lines) = lrc_of(decoded(files[i].bytes@));
            &&& lines.len() > 0 ==> (sidecar_lyrics(files) matches Some(l) && l.source == "lrc-file"@
                && l.origin == Some(files[i].name@) && l.lines == lines && l.synced == synced)
            &&& lines.len() == 0 ==> sidecar_lyrics(files) is None
        }),
        ({
            let (synced, lines) = lrc_of(trim_of(texts[j]@));
            &&& lines.len() > 0 ==> (tag_lyrics(texts) matches Some(l) && l.source == "embedded"@
                && l.origin == Some("内嵌歌词标签"@) && l.lines == lines && l.synced == synced)
            &&& lines.len() == 0 ==> tag_lyrics(texts) is None
        }),
        no_lyrics().source == "none"@,
        no_lyrics().lines.len() == 0,
        !no_lyrics().synced,
{
    lemma_chosen_sidecar(files, i);
    lemma_chosen_tag(texts, j);
}

proof fn lemma_chosen_sidecar(files: Seq<Sidecar>, i: int)
    requires
        0 <= i < files.len(),
        trim_of(decoded(files[i].bytes@)).len() > 0,
        forall|k: int| 0 <= k < i ==> trim_of(decoded(#[trigger] files[k].bytes@)).len() == 0,
    ensures
        chosen_sidecar(files) == Some(files[i]),
    decreases files.len(),
{
    if i > 0 {
        let t = files.drop_first();
        assert(trim_of(decoded(files[0].bytes@)).len() == 0);
        assert forall|k: int| 0 <= k < i - 1 implies trim_of(decoded(#[trigger] t[k].bytes@)).len()
            == 0 by {
            assert(t[k] == files[k + 1]);
        }
        lemma_chosen_sidecar(t, i - 1);
    }
}

proof fn lemma_chosen_tag(texts: Seq<String>, j: int)
    requires
        0 <= j < texts.len(),
        trim_of(texts[j]@).len() > 0,
        forall|k: int| 0 <= k < j ==> trim_of(#[trigger] texts[k]@).len() == 0,
    ensures
        chosen_tag(texts) == Some(trim_of(texts[j]@)),
    decreases texts.len(),
{
    if j > 0 {
        let t = texts.drop_first();
        assert(trim_of(texts[0]@).len() == 0);
        assert forall|k: int| 0 <= k < j - 1 implies trim_of(#[trigger] t[k]@).len() == 0 by {
            assert(t[k] == texts[k + 1]);
        }
        lemma_chosen_tag(t, j - 1);
    }
}

/// The files beside a track go first; the tags count only where those hold no line, and where neither
/// does there are no lyrics.
pub proof fn law_files_before_tags(files: Seq<Sidecar>, texts: Seq<String>)
    ensures
        sidecar_lyrics(files) matches Some(l) ==> lyrics_of(files, texts) == l,
        sidecar_lyrics(files) is None ==> (tag_lyrics(texts) matches Some(l) ==> lyrics_of(files, texts)
            == l),
        sidecar_lyrics(files) is None && tag_lyrics(texts) is None ==> lyrics_of(files, texts).source
            == "none"@ && lyrics_of(files, texts).lines.len() == 0 && lyrics_of(files, texts).origin
            is None,
        sidecar_lyrics(Seq::empty()) is None,
        tag_lyrics(Seq::empty()) is None,
{
}

/// A sidecar bears the name of its track, with the ending of lyrics before that of plain text.
pub proof fn law_names_of_sidecars(stem: Seq<char>)
    ensures
        names_of_sidecars(stem).len() == 5,
        names_of_sidecars(stem)[0] == stem + ".lrc"@,
        names_of_sidecars(stem)[1] == stem + ".LRC"@,
        names_of_sidecars(stem)[2] == stem + ".Lrc"@,
        names_of_sidecars(stem)[3] == stem + ".txt"@,
        names_of_sidecars(stem)[4] == stem + ".TXT"@,
{
}

} // verus!
