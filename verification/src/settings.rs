//! What is kept between two runs: volume, play mode, output, and where playing was left.

use crate::double::{lemma_millis_bound, lemma_millis_near, rounded, seconds_of, Double};
use crate::models::{mode_name, mode_of, PlayMode};
use crate::text::{
    chars_of,
    decimal,
    decimal_of,
    integer_of,
    law_padding,
    parse_i64,
    push_decimal,
    push_signed,
    signed_of,
    str_eq,
    zero_padded,
};
use vstd::prelude::*;

verus! {

/// The setting for the output device; an empty text follows the system default.
pub const KEY_OUTPUT_DEVICE: &'static str = "outputDevice";

/// The setting for the output mode.
pub const KEY_OUTPUT_MODE: &'static str = "outputMode";

/// The volume at the first start.
pub const DEFAULT_VOLUME: u8 = 80;

/// A place in a track counts as worth returning to from here on, in nanoseconds.
pub const MIN_LAST_POSITION_NS: u64 = 5_000_000_000;

/// The volume that a stored text stands for.
pub open spec fn volume_of(stored: Option<&str>) -> u8 {
    match stored {
        Some(s) => if s@.len() > 0 && s@[0] != '-' && integer_of(s@) is Some && 0 <= integer_of(s@)->0
            <= 255 {
            integer_of(s@)->0 as u8
        } else {
            DEFAULT_VOLUME
        },
        None => DEFAULT_VOLUME,
    }
}

/// The volume to start with.
pub fn initial_volume(stored: Option<&str>) -> (r: u8)
    ensures
        r == volume_of(stored),
{
    match stored {
        Some(s) => {
            let chars = chars_of(s);
            if chars.len() == 0 || chars[0] == '-' {
                return DEFAULT_VOLUME;
            }
            match parse_i64(chars.as_slice()) {
                Some(v) => if 0 <= v && v <= 255 {
                    v as u8
                } else {
                    DEFAULT_VOLUME
                },
                None => DEFAULT_VOLUME,
            }
        },
        None => DEFAULT_VOLUME,
    }
}

/// The text that a volume is stored as.
pub fn volume_text(volume: u8) -> (r: String)
    ensures
        r@ == decimal_of(volume as nat),
{
    decimal(volume as u64)
}

/// The play mode that a stored text stands for. Playing the queue just once is not among the modes
/// to start with: it becomes a loop over the queue.
pub open spec fn mode_from(stored: Option<&str>) -> PlayMode {
    match stored {
        Some(s) => if mode_of(s@) == PlayMode::Sequential {
            PlayMode::LoopAll
        } else {
            mode_of(s@)
        },
        None => PlayMode::LoopAll,
    }
}

/// The play mode to start with.
pub fn initial_mode(stored: Option<&str>) -> (r: PlayMode)
    ensures
        r == mode_from(stored),
        r != PlayMode::Sequential,
{
    match stored {
        Some(s) => {
            let m = PlayMode::parse(s);
            match m {
                PlayMode::Sequential => PlayMode::LoopAll,
                _ => m,
            }
        },
        None => PlayMode::LoopAll,
    }
}

/// Whether a stored switch is on. Anything but `on` means that it is off.
pub open spec fn switched_on(stored: Option<&str>) -> bool {
    stored is Some && stored->0@ == "on"@
}

/// Whether a stored switch is on.
pub fn is_on(stored: Option<&str>) -> (r: bool)
    ensures
        r == switched_on(stored),
{
    match stored {
        Some(s) => str_eq(s, "on"),
        None => false,
    }
}

/// The text that a switch is stored as.
pub open spec fn switch_name(on: bool) -> Seq<char> {
    if on {
        "on"@
    } else {
        "off"@
    }
}

/// The text that a switch is stored as.
pub fn switch_text(on: bool) -> (r: &'static str)
    ensures
        r@ == switch_name(on),
{
    if on {
        "on"
    } else {
        "off"
    }
}

/// The output device that a stored or given text stands for.
pub open spec fn device_from(id: Option<String>) -> Option<String> {
    if id is Some && id->0@.len() > 0 {
        id
    } else {
        None
    }
}

/// The output device that a stored or given text stands for. No text and an empty one follow the
/// system default.
pub fn output_device(id: Option<String>) -> (r: Option<String>)
    ensures
        r == device_from(id),
{
    match id {
        Some(s) => if chars_of(s.as_str()).len() > 0 {
            Some(s)
        } else {
            None
        },
        None => None,
    }
}

/// Whether a text names an output mode.
pub open spec fn names_output_mode(s: Seq<char>) -> bool {
    s == "auto"@ || s == "exclusive"@ || s == "shared"@
}

/// The output mode that a stored or given text names.
pub open spec fn output_mode_from(text: Option<String>) -> Seq<char> {
    if text is Some && names_output_mode(text->0@) {
        text->0@
    } else {
        "auto"@
    }
}

/// The output mode that a stored or given text names; anything else stands for `auto`.
pub fn output_mode(text: Option<String>) -> (r: String)
    ensures
        r@ == output_mode_from(text),
        names_output_mode(r@),
{
    match text {
        Some(s) => {
            if str_eq(s.as_str(), "auto") || str_eq(s.as_str(), "exclusive") || str_eq(
                s.as_str(),
                "shared",
            ) {
                return s;
            }
        },
        None => {},
    }
    "auto".to_owned()
}

/// A point in time in seconds of double precision, rounded to three decimals.
pub open spec fn seconds_text(ns: nat) -> Seq<char> {
    let secs = seconds_of(ns);
    let ms = rounded(secs.num * 1000, secs.den);
    decimal_of(ms / 1000) + "."@ + zero_padded(decimal_of(ms % 1000), 3)
}

proof fn lemma_decimal_lengths(n: nat)
    requires
        n < 1000,
    ensures
        n < 10 ==> decimal_of(n).len() == 1,
        10 <= n < 100 ==> decimal_of(n).len() == 2,
        100 <= n ==> decimal_of(n).len() == 3,
{
    reveal_with_fuel(crate::text::radix_of, 4);
}

/// Whether a place in a track is worth returning to.
pub open spec fn is_worth_keeping(position_ns: u64) -> bool {
    position_ns >= MIN_LAST_POSITION_NS
}

/// What is stored of the place where playing is left: the track, and the place in seconds. Nothing
/// is stored of a place within the first five seconds.
pub fn last_position(track_id: i64, position_ns: u64) -> (r: Option<(String, String)>)
    ensures
        r is Some <==> is_worth_keeping(position_ns),
        r matches Some(v) ==> v.0@ == signed_of(track_id as int) && v.1@ == seconds_text(
            position_ns as nat,
        ),
{
    if position_ns < MIN_LAST_POSITION_NS {
        return None;
    }
    let mut id = String::new();
    push_signed(&mut id, track_id);
    proof {
        assert(Seq::<char>::empty() + signed_of(track_id as int) =~= signed_of(track_id as int));
    }
    proof {
        lemma_millis_bound(position_ns);
    }
    let ms: u64 = Double::seconds(position_ns).rounded_times(1000) as u64;
    let rest: u64 = ms % 1000;
    let mut text = decimal(ms / 1000);
    let ghost whole = text@;
    text.push('.');
    proof {
        reveal_strlit(".");
        assert(text@ =~= whole + "."@);
        lemma_decimal_lengths(rest as nat);
    }
    if rest < 100 {
        text.push('0');
    }
    if rest < 10 {
        text.push('0');
    }
    push_decimal(&mut text, rest);
    proof {
        assert(text@ =~= seconds_text(position_ns as nat));
    }
    Some((id, text))
}

/// The volume that was stored is the volume to start with.
pub proof fn law_volume_comes_back(volume: u8, stored: &str)
    requires
        stored@ == decimal_of(volume as nat),
    ensures
        volume_of(Some(stored)) == volume,
{
    reveal_with_fuel(crate::text::radix_of, 4);
    reveal_with_fuel(crate::text::digits_value, 4);
    let s = stored@;
    let n = volume as nat;
    if n < 10 {
        assert(s =~= seq![crate::text::digit_char(n)]);
        assert(s.drop_last() =~= Seq::empty());
    } else if n < 100 {
        assert(s =~= seq![crate::text::digit_char(n / 10), crate::text::digit_char(n % 10)]);
        assert(s.drop_last() =~= seq![crate::text::digit_char(n / 10)]);
        assert(s.drop_last().drop_last() =~= Seq::empty());
    } else {
        assert(s =~= seq![
            crate::text::digit_char(n / 100),
            crate::text::digit_char(n / 10 % 10),
            crate::text::digit_char(n % 10),
        ]);
        assert(s.drop_last() =~= seq![
            crate::text::digit_char(n / 100),
            crate::text::digit_char(n / 10 % 10),
        ]);
        assert(s.drop_last().drop_last() =~= seq![crate::text::digit_char(n / 100)]);
        assert(s.drop_last().drop_last().drop_last() =~= Seq::empty());
    }
}

/// The play mode that was stored is the play mode to start with, except that playing the queue just
/// once comes back as a loop over the queue.
pub proof fn law_mode_comes_back(m: PlayMode, stored: &str)
    requires
        stored@ == mode_name(m),
    ensures
        mode_from(Some(stored)) == if m == PlayMode::Sequential {
            PlayMode::LoopAll
        } else {
            m
        },
{
    crate::models::law_mode_round_trip(m);
}

/// A switch comes back as it was stored, and one that was never stored is off.
pub proof fn law_switch_comes_back(on: bool, stored: &str)
    requires
        stored@ == switch_name(on),
    ensures
        switched_on(Some(stored)) == on,
        !switched_on(None),
{
    reveal_strlit("on");
    reveal_strlit("off");
    assert("off"@.len() == 3);
    assert("on"@.len() == 2);
}

/// The volume to start with is 80 where nothing sensible was stored, and in particular where a
/// negative number was.
pub proof fn law_first_volume(stored: &str)
    ensures
        volume_of(None) == 80,
        stored@.len() == 0 ==> volume_of(Some(stored)) == 80,
        stored@.len() > 0 && stored@[0] == '-' ==> volume_of(Some(stored)) == 80,
        integer_of(stored@) is None ==> volume_of(Some(stored)) == 80,
        integer_of(stored@) matches Some(v) && (v < 0 || v > 255) ==> volume_of(Some(stored)) == 80,
{
}

/// At the first start, and after playing the queue just once, the queue is looped over.
pub proof fn law_first_mode(stored: &str)
    ensures
        mode_from(None) == PlayMode::LoopAll,
        stored@ == "shuffle"@ ==> mode_from(Some(stored)) == PlayMode::Shuffle,
        stored@ == "loop-one"@ ==> mode_from(Some(stored)) == PlayMode::LoopOne,
        stored@ != "shuffle"@ && stored@ != "loop-one"@ ==> mode_from(Some(stored))
            == PlayMode::LoopAll,
{
    crate::models::law_mode_names(stored@);
}

/// Switches are stored by two words.
pub proof fn law_switch_words()
    ensures
        switch_name(true) == "on"@,
        switch_name(false) == "off"@,
{
}

/// An output device is known by its text; an empty text is none.
pub proof fn law_output_device(id: String)
    ensures
        id@.len() > 0 ==> device_from(Some(id)) == Some(id),
        id@.len() == 0 ==> device_from(Some(id)) is None,
        device_from(None) is None,
        KEY_OUTPUT_DEVICE@ == "outputDevice"@,
        KEY_OUTPUT_MODE@ == "outputMode"@,
{
}

/// There are three output modes; any other text means `auto`.
pub proof fn law_output_modes(text: String)
    ensures
        text@ == "exclusive"@ ==> output_mode_from(Some(text)) == "exclusive"@,
        text@ == "shared"@ ==> output_mode_from(Some(text)) == "shared"@,
        text@ != "exclusive"@ && text@ != "shared"@ ==> output_mode_from(Some(text)) == "auto"@,
        output_mode_from(None) == "auto"@,
{
}

/// A place is kept from five seconds on.
pub proof fn law_place_worth_keeping(position_ns: u64)
    ensures
        is_worth_keeping(position_ns) <==> position_ns >= 5_000_000_000,
{
}

/// The text of a place holds whole seconds, a point and three digits, and its thousandths of a
/// second are the nearest to the place, but for the two nanoseconds that double precision may be
/// off.
pub proof fn law_place_text(ns: u64)
    requires
        ns < 0x10_0000_0000_0000,
    ensures
        ({
            let ms = rounded(seconds_of(ns as nat).num * 1000, seconds_of(ns as nat).den);
            let text = seconds_text(ns as nat);
            let at: int = text.len() - 4;
            &&& 2 * (ms * 1_000_000) <= 2 * ns + 1_000_004
            &&& 2 * ns <= 2 * (ms * 1_000_000) + 1_000_004
            &&& at >= 0
            &&& text.take(at) == decimal_of(ms / 1000)
            &&& text[at] == '.'
            &&& text.skip(at + 1) == zero_padded(decimal_of(ms % 1000), 3)
        }),
{
    lemma_millis_near(ns);
    reveal_strlit(".");
    let ms = rounded(seconds_of(ns as nat).num * 1000, seconds_of(ns as nat).den);
    lemma_decimal_lengths(ms % 1000);
    law_padding(decimal_of(ms % 1000), 3);
    let text = seconds_text(ns as nat);
    let at: int = text.len() - 4;
    assert(text.take(at) =~= decimal_of(ms / 1000));
    assert(text.skip(at + 1) =~= zero_padded(decimal_of(ms % 1000), 3));
}

} // verus!
