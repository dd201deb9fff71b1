//! Fonts that a user brings for the lyrics: what they may be called, and how large they may be.

use crate::error::{AppError, E_INVALID_ARG};
use crate::text::{
    chars_of, ends_with, ends_with_seq, is_separator, lower_of, separates, string_of, to_lower,
};
use vstd::prelude::*;
use vstd::slice::slice_subrange;

verus! {

/// The least number of bytes that a font can have.
pub const MIN_BYTES: usize = 1024;

/// The largest number of bytes that is taken.
pub const MAX_BYTES: usize = 67_108_864;

/// Whether a name ends like that of a font.
pub open spec fn is_font_name(s: Seq<char>) -> bool {
    let low = lower_of(s);
    ends_with_seq(low, ".ttf"@) || ends_with_seq(low, ".otf"@) || ends_with_seq(low, ".ttc"@)
        || ends_with_seq(low, ".woff"@) || ends_with_seq(low, ".woff2"@)
}

/// What stands behind the last separator of a path.
pub open spec fn base_name(s: Seq<char>) -> Seq<char>
    decreases s.len(),
{
    if s.len() == 0 || is_separator(s.last()) {
        Seq::empty()
    } else {
        base_name(s.drop_last()).push(s.last())
    }
}

/// A character that is safe in a file name: letters, digits, points, hyphens, underscores, and
/// whatever is not ASCII. Anything else becomes an underscore.
pub open spec fn safe_char(c: char) -> char {
    if 'a' <= c <= 'z' || 'A' <= c <= 'Z' || '0' <= c <= '9' || c == '.' || c == '-' || c == '_'
        || c as u32 >= 128 {
        c
    } else {
        '_'
    }
}

/// The name that a font is stored under.
pub open spec fn font_name(s: Seq<char>) -> Seq<char> {
    base_name(s).map_values(|c: char| safe_char(c))
}

fn safe(c: char) -> (r: char)
    ensures
        r == safe_char(c),
{
    if ('a' <= c && c <= 'z') || ('A' <= c && c <= 'Z') || ('0' <= c && c <= '9') || c == '.' || c
        == '-' || c == '_' || c as u32 >= 128 {
        c
    } else {
        '_'
    }
}

proof fn lemma_base(s: Seq<char>, i: int)
    requires
        0 <= i <= s.len(),
        i == 0 || is_separator(s[i - 1]),
        forall|k: int| i <= k < s.len() ==> !is_separator(#[trigger] s[k]),
    ensures
        base_name(s) == s.skip(i),
    decreases s.len(),
{
    if i == s.len() {
        assert(s.skip(i) =~= Seq::empty());
    } else {
        let front = s.drop_last();
        lemma_base(front, i);
        assert(s.skip(i) =~= front.skip(i).push(s.last()));
    }
}

fn base_start(s: &[char]) -> (r: usize)
    ensures
        r <= s@.len(),
        base_name(s@) == s@.skip(r as int),
{
    let mut i: usize = s.len();
    while i > 0
        invariant
            i <= s@.len(),
            forall|k: int| i <= k < s@.len() ==> !is_separator(#[trigger] s@[k]),
        decreases i,
    {
        if separates(s[i - 1]) {
            proof {
                lemma_base(s@, i as int);
            }
            return i;
        }
        i = i - 1;
    }
    proof {
        lemma_base(s@, 0);
    }
    0
}

/// The name that a font is stored under: without any folders, with safe characters only. The name
/// has to end like that of a font.
pub fn sanitize(name: &str) -> (r: Result<String, AppError>)
    ensures
        r is Ok <==> is_font_name(base_name(name@)),
        r matches Ok(s) ==> s@ == font_name(name@),
        r matches Err(e) ==> e.code@ == E_INVALID_ARG@ && e.message@
            == "只支持 ttf / otf / ttc / woff / woff2 字体文件"@,
{
    let chars = chars_of(name);
    let start: usize = base_start(chars.as_slice());
    let base = slice_subrange(chars.as_slice(), start, chars.len());
    proof {
        assert(base@ =~= name@.skip(start as int));
    }
    let low = to_lower(base);
    let ttf = chars_of(".ttf");
    let otf = chars_of(".otf");
    let ttc = chars_of(".ttc");
    let woff = chars_of(".woff");
    let woff2 = chars_of(".woff2");
    if !(ends_with(low.as_slice(), ttf.as_slice()) || ends_with(low.as_slice(), otf.as_slice())
        || ends_with(low.as_slice(), ttc.as_slice()) || ends_with(low.as_slice(), woff.as_slice())
        || ends_with(low.as_slice(), woff2.as_slice())) {
        return Err(
            AppError::param("只支持 ttf / otf / ttc / woff / woff2 字体文件".to_owned()),
        );
    }
    let n: usize = base.len();
    let mut out: Vec<char> = Vec::new();
    let mut i: usize = 0;
    while i < n
        invariant
            n == base@.len(),
            i <= n,
            out@ =~= base@.take(i as int).map_values(|c: char| safe_char(c)),
        decreases n - i,
    {
        out.push(safe(base[i]));
        i = i + 1;
    }
    proof {
        assert(base@.take(n as int) =~= base@);
    }
    Ok(string_of(out.as_slice()))
}

/// Why a font is not stored, if it is not.
pub open spec fn refusal(name: Seq<char>, len: nat) -> Option<Seq<char>> {
    if !is_font_name(base_name(name)) {
        Some("只支持 ttf / otf / ttc / woff / woff2 字体文件"@)
    } else if len < MIN_BYTES {
        Some("字体文件过小，可能不是有效字体"@)
    } else if len > MAX_BYTES {
        Some("字体文件过大（上限 64MB）"@)
    } else {
        None
    }
}

/// Decides whether a font is stored, and under which name.
pub fn font_save(name: &str, len: usize) -> (r: Result<String, AppError>)
    ensures
        r is Ok <==> refusal(name@, len as nat) is None,
        r matches Ok(s) ==> s@ == font_name(name@),
        r matches Err(e) ==> e.code@ == E_INVALID_ARG@ && Some(e.message@) == refusal(
            name@,
            len as nat,
        ),
{
    match sanitize(name) {
        Err(e) => Err(e),
        Ok(s) => {
            if len < MIN_BYTES {
                return Err(AppError::param("字体文件过小，可能不是有效字体".to_owned()));
            }
            if len > MAX_BYTES {
                return Err(AppError::param("字体文件过大（上限 64MB）".to_owned()));
            }
            Ok(s)
        },
    }
}

/// A stored font lies in the folder of fonts itself: no part of its name leads elsewhere, and the
/// name still is that of a font.
pub proof fn law_font_stays_in_its_folder(s: Seq<char>)
    requires
        is_font_name(base_name(s)),
    ensures
        forall|i: int|
            0 <= i < font_name(s).len() ==> !is_separator(#[trigger] font_name(s)[i]) && font_name(
                s,
            )[i] != ':',
        font_name(s).len() >= 4,
        is_font_name(font_name(s)),
{
    let b = base_name(s);
    reveal_strlit(".ttf");
    reveal_strlit(".otf");
    reveal_strlit(".ttc");
    reveal_strlit(".woff");
    reveal_strlit(".woff2");
    lemma_same_end(b, ".ttf"@);
    lemma_same_end(b, ".otf"@);
    lemma_same_end(b, ".ttc"@);
    lemma_same_end(b, ".woff"@);
    lemma_same_end(b, ".woff2"@);
}

proof fn lemma_same_end(b: Seq<char>, p: Seq<char>)
    requires
        forall|i: int|
            0 <= i < p.len() ==> ('a' <= #[trigger] p[i] <= 'z' || p[i] == '.' || p[i] == '2'),
    ensures
        ends_with_seq(lower_of(b), p) ==> ends_with_seq(
            lower_of(b.map_values(|c: char| safe_char(c))),
            p,
        ),
{
    let f = b.map_values(|c: char| safe_char(c));
    if ends_with_seq(lower_of(b), p) {
        let n = b.len() - p.len();
        assert forall|i: int| 0 <= i < p.len() implies lower_of(f)[n + i] == p[i] by {
            assert(lower_of(b).subrange(n, b.len() as int)[i] == p[i]);
            assert(lower_of(b)[n + i] == p[i]);
            assert(lower_char_is(b[n + i], p[i]));
        }
        assert(lower_of(f).subrange(n, f.len() as int) =~= p);
    }
}

spec fn lower_char_is(c: char, low: char) -> bool {
    crate::text::lower_char(c) == low && safe_char(c) == c
}

/// A name that a font is stored under stays as it is when it is taken as a name again.
pub proof fn law_sanitized_name_is_final(name: Seq<char>)
    ensures
        base_name(font_name(name)) == font_name(name),
        font_name(font_name(name)) == font_name(name),
        is_font_name(base_name(name)) ==> is_font_name(base_name(font_name(name))),
{
    let base = base_name(name);
    let s = font_name(name);
    assert forall|k: int| 0 <= k < s.len() implies !is_separator(#[trigger] s[k]) by {
        assert(s[k] == safe_char(base[k]));
    }
    lemma_base(s, 0);
    assert(s.skip(0) =~= s);
    assert(font_name(s) =~= s) by {
        assert forall|k: int| 0 <= k < s.len() implies safe_char(#[trigger] s[k]) == s[k] by {
            assert(s[k] == safe_char(base[k]));
        }
    }
    if is_font_name(base) {
        law_font_stays_in_its_folder(name);
    }
}

/// A name is that of a font by its ending, in upper or lower case.
pub proof fn law_font_endings(stem: Seq<char>)
    ensures
        is_font_name(stem + ".ttf"@),
        is_font_name(stem + ".otf"@),
        is_font_name(stem + ".ttc"@),
        is_font_name(stem + ".woff"@),
        is_font_name(stem + ".woff2"@),
        is_font_name(stem + ".TTF"@),
        is_font_name(stem) <==> is_font_name(lower_of(stem)),
{
    reveal_strlit(".ttf");
    reveal_strlit(".otf");
    reveal_strlit(".ttc");
    reveal_strlit(".woff");
    reveal_strlit(".woff2");
    reveal_strlit(".TTF");
    lemma_ends(stem, ".ttf"@, ".ttf"@);
    lemma_ends(stem, ".otf"@, ".otf"@);
    lemma_ends(stem, ".ttc"@, ".ttc"@);
    lemma_ends(stem, ".woff"@, ".woff"@);
    lemma_ends(stem, ".woff2"@, ".woff2"@);
    lemma_ends(stem, ".TTF"@, ".ttf"@);
    assert(lower_of(lower_of(stem)) =~= lower_of(stem));
}

proof fn lemma_ends(stem: Seq<char>, end: Seq<char>, low: Seq<char>)
    requires
        lower_of(end) =~= low,
    ensures
        ends_with_seq(lower_of(stem + end), low),
{
    let s = lower_of(stem + end);
    assert(s.subrange(s.len() - low.len(), s.len() as int) =~= lower_of(end));
}

/// A name without a point is not that of a font, nor is one that ends in another letter.
pub proof fn law_other_names(s: Seq<char>)
    requires
        is_font_name(s),
    ensures
        s.contains('.'),
        ({
            let c = crate::text::lower_char(s.last());
            c == 'f' || c == 'c' || c == '2'
        }),
{
    reveal_strlit(".ttf");
    reveal_strlit(".otf");
    reveal_strlit(".ttc");
    reveal_strlit(".woff");
    reveal_strlit(".woff2");
    lemma_end_chars(s, ".ttf"@);
    lemma_end_chars(s, ".otf"@);
    lemma_end_chars(s, ".ttc"@);
    lemma_end_chars(s, ".woff"@);
    lemma_end_chars(s, ".woff2"@);
}

proof fn lemma_end_chars(s: Seq<char>, end: Seq<char>)
    requires
        end.len() > 0,
        end[0] == '.',
    ensures
        ends_with_seq(lower_of(s), end) ==> s.contains('.') && crate::text::lower_char(s.last())
            == end.last(),
{
    if ends_with_seq(lower_of(s), end) {
        let n = s.len() - end.len();
        let low = lower_of(s);
        assert(low.subrange(n, s.len() as int)[0] == low[n]);
        assert(s[n] == '.');
        assert(low.subrange(n, s.len() as int)[end.len() - 1] == low[s.len() - 1]);
    }
}

/// The folders in front of a name do not count.
pub proof fn law_base_name(dir: Seq<char>, name: Seq<char>)
    requires
        dir.len() > 0,
        dir.last() == '/' || dir.last() == '\\',
        forall|i: int| 0 <= i < name.len() ==> name[i] != '/' && name[i] != '\\',
    ensures
        base_name(dir + name) == name,
        base_name(name) == name,
{
    let s = dir + name;
    assert(s[dir.len() - 1] == dir.last());
    lemma_base(s, dir.len() as int);
    assert(s.skip(dir.len() as int) =~= name);
    lemma_base(name, 0);
    assert(name.skip(0) =~= name);
}

/// Letters, digits and the marks of file names stay as they are, and so does what is not ASCII;
/// anything else becomes an underscore.
pub proof fn law_safe_characters(c: char)
    ensures
        safe_char(c) == c || safe_char(c) == '_',
        c == 'a' || c == 'Z' || c == '0' || c == '.' || c == '-' ==> safe_char(c) == c,
        'a' <= c <= 'z' || 'A' <= c <= 'Z' || '0' <= c <= '9' ==> safe_char(c) == c,
        c as u32 >= 128 ==> safe_char(c) == c,
        c == ' ' || c == ':' || c == '*' || c == '?' || c == '"' || c == '<' || c == '>' || c == '|'
            || c == '/' || c == '\\' || c == '%' || c == '&' ==> safe_char(c) == '_',
{
}

/// A font of less than a kilobyte or of more than 64 megabytes is not stored.
pub proof fn law_font_sizes(name: Seq<char>, len: nat)
    ensures
        refusal(name, len) is None <==> is_font_name(base_name(name)) && 1024 <= len <= 64 * 1024 * 1024,
        is_font_name(base_name(name)) && len < 1024 ==> refusal(name, len) == Some(
            "字体文件过小，可能不是有效字体"@,
        ),
        is_font_name(base_name(name)) && len > 64 * 1024 * 1024 ==> refusal(name, len) == Some(
            "字体文件过大（上限 64MB）"@,
        ),
{
}

} // verus!
