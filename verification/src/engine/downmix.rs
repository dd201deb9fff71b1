//! Mixing several channels down to two after ITU-R BS.775.
//!
//! The layout is inferred from the number of channels, in the order that wave files use. The
//! gains are named here; the sample arithmetic is done by the caller.

use vstd::prelude::*;

verus! {

/// How much of a channel goes into an output.
#[derive(Debug, Clone, Copy, PartialEq, Eq, Structural)]
pub enum Gain {
    Silent,
    /// Half, which is -6 dB.
    Half,
    /// One over the square root of two, which is -3 dB.
    MinusThreeDb,
    Full,
}

/// What one source channel contributes to the two outputs.
#[derive(Debug, Clone, Copy, PartialEq, Eq, Structural)]
pub struct Share {
    pub left: Gain,
    pub right: Gain,
}

/// The position of a loudspeaker.
#[derive(Debug, Clone, Copy, PartialEq, Eq, Structural)]
pub enum Speaker {
    FrontLeft,
    FrontRight,
    /// Front or rear centre.
    Center,
    LowFrequency,
    /// Any surround speaker on the left.
    SurroundLeft,
    /// Any surround speaker on the right.
    SurroundRight,
}

/// The speakers of a layout, in channel order.
pub open spec fn layout(channels: int) -> Option<Seq<Speaker>> {
    let front = seq![Speaker::FrontLeft, Speaker::FrontRight];
    let center = seq![Speaker::Center];
    let low = seq![Speaker::LowFrequency];
    let back = seq![Speaker::SurroundLeft, Speaker::SurroundRight];
    if channels == 3 {
        Some(front + center)
    } else if channels == 4 {
        Some(front + back)
    } else if channels == 5 {
        Some(front + center + back)
    } else if channels == 6 {
        Some(front + center + low + back)
    } else if channels == 7 {
        Some(front + center + low + center + back)
    } else if channels == 8 {
        Some(front + center + low + back + back)
    } else {
        None
    }
}

/// What a speaker's channel contributes.
pub open spec fn share_of(s: Speaker) -> Share {
    match s {
        Speaker::FrontLeft => Share { left: Gain::Full, right: Gain::Silent },
        Speaker::FrontRight => Share { left: Gain::Silent, right: Gain::Full },
        Speaker::Center => Share { left: Gain::MinusThreeDb, right: Gain::MinusThreeDb },
        Speaker::LowFrequency => Share { left: Gain::Half, right: Gain::Half },
        Speaker::SurroundLeft => Share { left: Gain::MinusThreeDb, right: Gain::Silent },
        Speaker::SurroundRight => Share { left: Gain::Silent, right: Gain::MinusThreeDb },
    }
}

fn share(s: Speaker) -> (r: Share)
    ensures
        r == share_of(s),
{
    match s {
        Speaker::FrontLeft => Share { left: Gain::Full, right: Gain::Silent },
        Speaker::FrontRight => Share { left: Gain::Silent, right: Gain::Full },
        Speaker::Center => Share { left: Gain::MinusThreeDb, right: Gain::MinusThreeDb },
        Speaker::LowFrequency => Share { left: Gain::Half, right: Gain::Half },
        Speaker::SurroundLeft => Share { left: Gain::MinusThreeDb, right: Gain::Silent },
        Speaker::SurroundRight => Share { left: Gain::Silent, right: Gain::MinusThreeDb },
    }
}

/// The shares of the channels of a layout, or nothing where the layout is not known.
pub fn coeffs_for(src_channels: usize) -> (r: Option<Vec<Share>>)
    ensures
        r is Some <==> layout(src_channels as int) is Some,
        r matches Some(v) ==> v@ == layout(src_channels as int)->0.map_values(
            |s: Speaker| share_of(s),
        ),
{
    if src_channels < 3 || src_channels > 8 {
        return None;
    }
    let mut v: Vec<Share> = Vec::new();
    v.push(share(Speaker::FrontLeft));
    v.push(share(Speaker::FrontRight));
    if src_channels != 4 {
        v.push(share(Speaker::Center));
    }
    if src_channels >= 6 {
        v.push(share(Speaker::LowFrequency));
    }
    if src_channels == 7 {
        v.push(share(Speaker::Center));
    }
    if src_channels >= 4 {
        v.push(share(Speaker::SurroundLeft));
        v.push(share(Speaker::SurroundRight));
    }
    if src_channels == 8 {
        v.push(share(Speaker::SurroundLeft));
        v.push(share(Speaker::SurroundRight));
    }
    proof {
        assert(v@ =~= layout(src_channels as int)->0.map_values(|s: Speaker| share_of(s)));
    }
    Some(v)
}

/// Every known layout gives each of its channels a share, and none of them is dropped.
pub proof fn law_no_channel_is_dropped(channels: int)
    requires
        layout(channels) is Some,
    ensures
        layout(channels)->0.len() == channels,
        forall|i: int|
            0 <= i < channels ==> (#[trigger] share_of(layout(channels)->0[i])).left != Gain::Silent
                || share_of(layout(channels)->0[i]).right != Gain::Silent,
{
}

/// How many samples a run of `n` interleaved samples becomes.
pub open spec fn mixed_len(n: int, src_channels: int) -> int {
    if n < src_channels {
        2
    } else {
        (n / src_channels) * 2
    }
}

/// How many samples a run of `n` interleaved samples becomes: two for each whole frame, and never
/// less than one frame.
pub fn stereo_span(n: usize, src_channels: usize) -> (r: usize)
    requires
        layout(src_channels as int) is Some,
    ensures
        r == mixed_len(n as int, src_channels as int),
{
    if n < src_channels {
        return 2;
    }
    let frames: usize = n / src_channels;
    proof {
        assert(frames * 3 <= n) by (nonlinear_arith)
            requires
                frames == n / src_channels,
                src_channels >= 3,
        ;
    }
    frames * 2
}

/// Mixing down is fair to both sides and keeps every channel on its own: what stands on the left goes
/// to the left only and what stands on the right to the right only, as loud as each other; what
/// stands in the middle goes to both alike. The front comes through as it is, centre and surround
/// are lowered by 3 dB and the low frequencies by 6 dB.
pub proof fn law_mix_is_balanced(channels: int, i: int)
    requires
        3 <= channels <= 8,
        0 <= i < channels,
    ensures
        layout(channels) is Some,
        ({
            let s = layout(channels)->0[i];
            let g = share_of(s);
            &&& i == 0 ==> g.left == Gain::Full && g.right == Gain::Silent
            &&& i == 1 ==> g.left == Gain::Silent && g.right == Gain::Full
            &&& i == 2 && channels != 4 ==> g.left == Gain::MinusThreeDb && g.right
                == Gain::MinusThreeDb
            &&& i == 3 && channels >= 6 ==> g.left == Gain::Half && g.right == Gain::Half
            &&& i == 4 && channels == 7 ==> g.left == Gain::MinusThreeDb && g.right
                == Gain::MinusThreeDb
            &&& i == channels - 2 && channels >= 4 ==> g.left == Gain::MinusThreeDb && g.right
                == Gain::Silent
            &&& i == channels - 1 && channels >= 4 ==> g.left == Gain::Silent && g.right
                == Gain::MinusThreeDb
            &&& i == 4 && channels == 8 ==> g.left == Gain::MinusThreeDb && g.right == Gain::Silent
            &&& i == 5 && channels == 8 ==> g.left == Gain::Silent && g.right == Gain::MinusThreeDb
        }),
{
}

/// Stereo and mono are left alone, and so is what has more channels than any known layout.
pub proof fn law_only_surround_is_mixed(channels: int)
    ensures
        layout(channels) is Some <==> 3 <= channels <= 8,
{
}

/// The gains: front channels go over in full to their own side, centre and surround channels 3 dB
/// down, and the low one 6 dB down to both sides.
pub proof fn law_gains()
    ensures
        share_of(Speaker::FrontLeft).left == Gain::Full && share_of(Speaker::FrontLeft).right
            == Gain::Silent,
        share_of(Speaker::FrontRight).right == Gain::Full && share_of(Speaker::FrontRight).left
            == Gain::Silent,
        share_of(Speaker::Center).left == Gain::MinusThreeDb && share_of(Speaker::Center).right
            == Gain::MinusThreeDb,
        share_of(Speaker::LowFrequency).left == Gain::Half && share_of(Speaker::LowFrequency).right
            == Gain::Half,
        share_of(Speaker::SurroundLeft).left == Gain::MinusThreeDb && share_of(
            Speaker::SurroundLeft,
        ).right == Gain::Silent,
        share_of(Speaker::SurroundRight).right == Gain::MinusThreeDb && share_of(
            Speaker::SurroundRight,
        ).left == Gain::Silent,
{
}

/// Where the speakers stand among the channels of each layout.
pub proof fn law_layouts(n: int)
    requires
        3 <= n <= 8,
    ensures
        layout(n) is Some,
        (layout(n)->0).len() == n,
        (layout(n)->0)[0] == Speaker::FrontLeft,
        (layout(n)->0)[1] == Speaker::FrontRight,
        n != 4 ==> (layout(n)->0)[2] == Speaker::Center,
        n >= 6 ==> (layout(n)->0)[3] == Speaker::LowFrequency,
        n == 7 ==> (layout(n)->0)[4] == Speaker::Center,
        n >= 4 ==> (layout(n)->0)[n - 2] == Speaker::SurroundLeft && (layout(n)->0)[n - 1]
            == Speaker::SurroundRight,
        n == 8 ==> (layout(n)->0)[4] == Speaker::SurroundLeft && (layout(n)->0)[5]
            == Speaker::SurroundRight,
{
}

/// Each whole frame becomes two samples, and there is never less than one frame.
pub proof fn law_mixed_length(frames: int, rest: int, channels: int)
    requires
        channels >= 3,
        frames >= 0,
        0 <= rest < channels,
    ensures
        frames >= 1 ==> mixed_len(frames * channels + rest, channels) == 2 * frames,
        mixed_len(rest, channels) == 2,
{
    vstd::arithmetic::div_mod::lemma_fundamental_div_mod_converse(
        frames * channels + rest,
        channels,
        frames,
        rest,
    );
    if frames >= 1 {
        assert(frames * channels >= channels) by (nonlinear_arith)
            requires
                frames >= 1,
                channels >= 3,
        ;
    }
}

} // verus!
